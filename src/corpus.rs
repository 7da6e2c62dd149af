//! Corpus assembly: wordlist text is split into lines, optionally
//! case-folded, and reduced to a set of unique entries.

use vstd::prelude::*;
use crate::text::{
    chars_of, lemma_split_on_concat, lemma_split_on_no_sep, lemma_split_on_nonempty,
    lemma_split_on_pieces, push_char,
    split_chars, split_on, string_of, views,
};

verus! {

/// A line without the `\r` of a `\r\n` ending.
pub open spec fn strip_cr(l: Seq<char>) -> Seq<char> {
    if l.len() > 0 && l.last() == '\r' {
        l.drop_last()
    } else {
        l
    }
}

/// The lines of `s`, as `str::lines` yields them: split at `\n`, a final
/// `\n` ends the last line rather than starting an empty one, and a `\r`
/// before a `\n` is part of the line ending.
pub open spec fn lines_of(s: Seq<char>) -> Seq<Seq<char>> {
    let parts = split_on(s, '\n');
    let ended = parts.drop_last().map_values(|l: Seq<char>| strip_cr(l));
    if parts.last().len() == 0 {
        ended
    } else {
        ended.push(parts.last())
    }
}

pub open spec fn string_views(v: Seq<String>) -> Seq<Seq<char>> {
    v.map_values(|x: String| x@)
}

/// The lines of `text`, each as a string of its own.
pub fn split_lines(text: &str) -> (r: Vec<String>)
    ensures
        string_views(r@) == lines_of(text@),
{
    let cs = chars_of(text);
    let parts = split_chars(&cs, '\n');
    proof { lemma_split_on_nonempty(text@, '\n'); }
    let ghost ps = split_on(text@, '\n');
    let n: usize = parts.len() - 1;
    let mut out: Vec<String> = Vec::new();
    let mut i: usize = 0;
    while i < n
        invariant
            n + 1 == parts@.len(),
            views(parts@) == ps,
            i <= n,
            string_views(out@) == ps.drop_last().take(i as int).map_values(|l: Seq<char>| strip_cr(l)),
        decreases n - i,
    {
        let p = &parts[i];
        assert(p@ == ps[i as int]);
        let end: usize = if p.len() > 0 && p[p.len() - 1] == '\r' {
            p.len() - 1
        } else {
            p.len()
        };
        let line = string_of(p, 0, end);
        proof {
            if p@.len() > 0 && p@.last() == '\r' {
                assert(p@.subrange(0, p@.len() - 1) =~= p@.drop_last());
            } else {
                assert(p@.subrange(0, p@.len() as int) =~= p@);
            }
        }
        let ghost prev = out@;
        out.push(line);
        assert(string_views(out@) =~= string_views(prev).push(strip_cr(ps[i as int])));
        assert(ps.drop_last().take(i + 1).map_values(|l: Seq<char>| strip_cr(l)) =~= ps.drop_last().take(
            i as int,
        ).map_values(|l: Seq<char>| strip_cr(l)).push(strip_cr(ps[i as int])));
        i = i + 1;
    }
    assert(ps.drop_last().take(n as int) =~= ps.drop_last());
    let last = &parts[n];
    assert(last@ == ps.last());
    if last.len() > 0 {
        let ghost prev = out@;
        out.push(string_of(last, 0, last.len()));
        assert(last@.subrange(0, last@.len() as int) =~= last@);
        assert(string_views(out@) =~= string_views(prev).push(ps.last()));
    }
    out
}

/// The modulus of the entry hash, a prime below 2^32.
pub const HASH_MODULUS: u64 = 4294967291;

/// A polynomial hash of an entry's characters, used only to pick a bucket.
pub open spec fn entry_hash(s: Seq<char>) -> nat
    decreases s.len(),
{
    if s.len() == 0 {
        0
    } else {
        ((entry_hash(s.drop_last()) * 31 + (s.last() as u32) as nat) % (HASH_MODULUS as nat)) as nat
    }
}

fn hash_of(s: &String) -> (h: u64)
    ensures
        h as nat == entry_hash(s@),
        h < HASH_MODULUS,
{
    let mut h: u64 = 0;
    for c in it: s.as_str().chars()
        invariant
            it.seq() == s@,
            h < HASH_MODULUS,
            h as nat == entry_hash(it.seq().take(it.index() as int)),
    {
        proof {
            let k = it.index() as int;
            assert(it.seq().take(k + 1).drop_last() == it.seq().take(k));
            assert(it.seq().take(k + 1).last() == c);
        }
        h = (h * 31 + (c as u32) as u64) % HASH_MODULUS;
    }
    assert(s@.take(s@.len() as int) == s@);
    h
}

/// The entries of `entries`, each once.
pub fn unique_entries(entries: &Vec<String>) -> (r: Vec<String>)
    ensures
        string_views(r@).no_duplicates(),
        string_views(r@).to_set() == string_views(entries@).to_set(),
{
    let nb: usize = if entries.len() == 0 {
        1
    } else {
        entries.len()
    };
    let mut buckets: Vec<Vec<usize>> = Vec::new();
    while buckets.len() < nb
        invariant
            buckets@.len() <= nb,
            forall|b: int| 0 <= b < buckets@.len() ==> (#[trigger] buckets@[b])@.len() == 0,
        decreases nb - buckets@.len(),
    {
        buckets.push(Vec::new());
    }
    let mut out: Vec<String> = Vec::new();
    let mut k: usize = 0;
    while k < entries.len()
        invariant
            nb > 0,
            buckets@.len() == nb,
            k <= entries@.len(),
            out@.len() <= k,
            string_views(out@).no_duplicates(),
            string_views(out@).to_set() == string_views(entries@.take(k as int)).to_set(),
            forall|b: int, j: int|
                0 <= b < nb && 0 <= j < buckets@[b]@.len() ==> {
                    let i = #[trigger] buckets@[b]@[j];
                    &&& i < out@.len()
                    &&& entry_hash(out@[i as int]@) % (nb as nat) == b
                },
            forall|i: int|
                0 <= i < out@.len() ==> buckets@[(entry_hash(#[trigger] out@[i]@) % (nb as nat)) as int]@.contains(
                    i as usize,
                ),
        decreases entries@.len() - k,
    {
        let e = &entries[k];
        let h = hash_of(e);
        let b: usize = (h % (nb as u64)) as usize;
        assert(b as nat == entry_hash(e@) % (nb as nat));
        let ghost views_before = string_views(out@);
        let mut found = false;
        let mut j: usize = 0;
        let bucket_len = buckets[b].len();
        while j < bucket_len
            invariant
                b < nb,
                b as nat == entry_hash(e@) % (nb as nat),
                buckets@.len() == nb,
                bucket_len == buckets@[b as int]@.len(),
                j <= bucket_len,
                forall|b2: int, j2: int|
                    0 <= b2 < nb && 0 <= j2 < buckets@[b2]@.len() ==> {
                        let i = #[trigger] buckets@[b2]@[j2];
                        &&& i < out@.len()
                        &&& entry_hash(out@[i as int]@) % (nb as nat) == b2
                    },
                forall|i: int|
                    0 <= i < out@.len() ==> buckets@[(entry_hash(#[trigger] out@[i]@) % (
                    nb as nat)) as int]@.contains(i as usize),
                k < entries@.len(),
                out@.len() <= k,
                e == &entries@[k as int],
                views_before == string_views(out@),
                string_views(out@).no_duplicates(),
                string_views(out@).to_set() == string_views(entries@.take(k as int)).to_set(),
                found ==> string_views(out@).contains(e@),
                !found ==> forall|j2: int|
                    0 <= j2 < j ==> out@[buckets@[b as int]@[j2] as int]@ != e@,
            decreases bucket_len - j,
        {
            let idx = buckets[b][j];
            assert(buckets@[b as int]@[j as int] == idx);
            if out[idx] == *e {
                assert(string_views(out@)[idx as int] == e@);
                found = true;
            }
            j = j + 1;
        }
        if !found {
            assert forall|i: int| 0 <= i < out@.len() implies (#[trigger] out@[i])@ != e@ by {
                if out@[i]@ == e@ {
                    assert(buckets@[b as int]@.contains(i as usize));
                    let j2 = choose|j2: int|
                        0 <= j2 < buckets@[b as int]@.len() && buckets@[b as int]@[j2] == i as usize;
                    assert(out@[buckets@[b as int]@[j2] as int]@ != e@);
                }
            }
            assert(!string_views(out@).contains(e@)) by {
                if string_views(out@).contains(e@) {
                    let i = choose|i: int| 0 <= i < string_views(out@).len() && string_views(out@)[i] == e@;
                    assert(out@[i]@ == e@);
                }
            }
            let pos = out.len();
            let ghost buckets_before = buckets@;
            out.push(e.clone());
            buckets[b].push(pos);
            assert(string_views(out@) =~= views_before.push(e@));
            assert forall|b2: int, j2: int|
                0 <= b2 < nb && 0 <= j2 < buckets@[b2]@.len() implies {
                    let i = #[trigger] buckets@[b2]@[j2];
                    &&& i < out@.len()
                    &&& entry_hash(out@[i as int]@) % (nb as nat) == b2
                } by {
                if b2 != b || j2 < buckets_before[b2]@.len() {
                    assert(buckets@[b2]@[j2] == buckets_before[b2]@[j2]);
                }
            }
            assert forall|i: int|
                0 <= i < out@.len() implies buckets@[(entry_hash(#[trigger] out@[i]@) % (nb as nat)) as int]@.contains(
                    i as usize,
                ) by {
                let bi = (entry_hash(out@[i]@) % (nb as nat)) as int;
                if i < pos {
                    assert(buckets_before[bi]@.contains(i as usize));
                    let j3 = choose|j3: int| 0 <= j3 < buckets_before[bi]@.len() && buckets_before[bi]@[j3] == i as usize;
                    assert(buckets@[bi]@[j3] == i as usize);
                } else {
                    assert(buckets@[b as int]@[buckets@[b as int]@.len() - 1] == pos);
                }
            }
        }
        proof {
            assert(entries@.take(k + 1) =~= entries@.take(k as int).push(entries@[k as int]));
            assert(string_views(entries@.take(k + 1)) =~= string_views(entries@.take(k as int)).push(e@));
            assert(string_views(out@).to_set() =~= string_views(entries@.take(k + 1)).to_set()) by {
                string_views(entries@.take(k as int)).lemma_push_to_set_commute(e@);
                views_before.lemma_push_to_set_commute(e@);
            }
        }
        k = k + 1;
    }
    assert(entries@.take(entries@.len() as int) =~= entries@);
    out
}


/// What `str::to_lowercase` gives for a string of these characters.
pub uninterp spec fn lower_of(s: Seq<char>) -> Seq<char>;

/// Relies on `str::to_lowercase`: the result depends on the characters alone.
#[verifier::external_body]
fn lowercase(s: &str) -> (r: String)
    ensures
        r@ == lower_of(s@),
{
    s.to_lowercase()
}

/// An entry as it enters the corpus: lower-cased for a case-insensitive target.
pub open spec fn fold_entry(l: Seq<char>, fold: bool) -> Seq<char> {
    if fold {
        lower_of(l)
    } else {
        l
    }
}

pub open spec fn fold_all(ls: Seq<Seq<char>>, fold: bool) -> Seq<Seq<char>> {
    ls.map_values(|l: Seq<char>| fold_entry(l, fold))
}

/// The corpus that a wordlist text yields: the set of its lines, each folded.
pub open spec fn corpus_of(text: Seq<char>, fold: bool) -> Set<Seq<char>> {
    fold_all(lines_of(text), fold).to_set()
}

fn fold_entries(entries: Vec<String>, fold: bool) -> (r: Vec<String>)
    ensures
        string_views(r@) == fold_all(string_views(entries@), fold),
{
    if !fold {
        assert(fold_all(string_views(entries@), fold) =~= string_views(entries@));
        return entries;
    }
    let mut out: Vec<String> = Vec::new();
    let mut i: usize = 0;
    while i < entries.len()
        invariant
            fold,
            i <= entries@.len(),
            string_views(out@) == fold_all(string_views(entries@.take(i as int)), fold),
        decreases entries@.len() - i,
    {
        let ghost prev = out@;
        out.push(lowercase(entries[i].as_str()));
        assert(entries@.take(i + 1) =~= entries@.take(i as int).push(entries@[i as int]));
        assert(string_views(out@) =~= string_views(prev).push(lower_of(entries@[i as int]@)));
        assert(fold_all(string_views(entries@.take(i + 1)), fold) =~= fold_all(
            string_views(entries@.take(i as int)),
            fold,
        ).push(lower_of(entries@[i as int]@)));
        i = i + 1;
    }
    assert(entries@.take(entries@.len() as int) =~= entries@);
    out
}

/// The corpus of `wordlist`: its lines, lower-cased when `iis` says the
/// target ignores case, each once.
pub fn sort_wordlist(wordlist: &String, iis: bool) -> (r: Vec<String>)
    ensures
        string_views(r@).no_duplicates(),
        string_views(r@).to_set() == corpus_of(wordlist@, iis),
{
    let lines = split_lines(wordlist.as_str());
    let folded = fold_entries(lines, iis);
    unique_entries(&folded)
}

/// A lower-cased target probes each spelling once: where every line is its
/// own lower-case form, folding leaves the corpus as it is.
pub proof fn lemma_fold_idempotent(text: Seq<char>)
    requires
        forall|i: int| 0 <= i < lines_of(text).len() ==> lower_of(#[trigger] lines_of(text)[i]) == lines_of(text)[i],
    ensures
        corpus_of(text, true) == corpus_of(text, false),
{
    assert(fold_all(lines_of(text), true) =~= fold_all(lines_of(text), false));
}


/// Text that is empty or ends a line can be followed by more text without
/// joining two lines.
pub open spec fn ends_line(s: Seq<char>) -> bool {
    s.len() == 0 || s.last() == '\n'
}

/// After text that ends a line, the lines of a concatenation are the lines
/// of each part.
pub proof fn lemma_lines_concat(a: Seq<char>, b: Seq<char>)
    requires
        ends_line(a),
    ensures
        lines_of(a + b) == lines_of(a) + lines_of(b),
{
    lemma_split_on_nonempty(b, '\n');
    let sb = split_on(b, '\n');
    if a.len() == 0 {
        assert(a + b =~= b);
        assert(lines_of(a) =~= Seq::<Seq<char>>::empty());
        assert(lines_of(a) + lines_of(b) =~= lines_of(b));
    } else {
        let x = split_on(a.drop_last(), '\n');
        assert(split_on(a, '\n') == x.push(Seq::<char>::empty()));
        lemma_split_on_concat(a, b, '\n');
        assert(split_on(a, '\n').drop_last() =~= x);
        assert(Seq::<char>::empty() + sb[0] =~= sb[0]);
        assert(seq![sb[0]] + sb.drop_first() =~= sb);
        assert(split_on(a + b, '\n') =~= x + sb);
        assert((x + sb).last() == sb.last());
        assert((x + sb).drop_last() =~= x + sb.drop_last());
        assert(lines_of(a) =~= x.map_values(|l: Seq<char>| strip_cr(l)));
        assert((x + sb.drop_last()).map_values(|l: Seq<char>| strip_cr(l)) =~= x.map_values(
            |l: Seq<char>| strip_cr(l),
        ) + sb.drop_last().map_values(|l: Seq<char>| strip_cr(l)));
        assert(lines_of(a + b) =~= lines_of(a) + lines_of(b));
    }
}

/// The corpus of text that follows a line end is the union of the corpora
/// of the two parts.
pub proof fn lemma_corpus_union(a: Seq<char>, b: Seq<char>, fold: bool)
    requires
        ends_line(a),
    ensures
        corpus_of(a + b, fold) == corpus_of(a, fold) + corpus_of(b, fold),
{
    lemma_lines_concat(a, b);
    let la = fold_all(lines_of(a), fold);
    let lb = fold_all(lines_of(b), fold);
    assert(fold_all(lines_of(a + b), fold) =~= la + lb);
    assert forall|x: Seq<char>| (la + lb).to_set().contains(x) <==> (la.to_set() + lb.to_set()).contains(x) by {
        if (la + lb).contains(x) {
            let i = choose|i: int| 0 <= i < (la + lb).len() && (la + lb)[i] == x;
            if i < la.len() {
                assert(la[i] == x);
            } else {
                assert(lb[i - la.len()] == x);
            }
        }
        if la.contains(x) {
            let i = choose|i: int| 0 <= i < la.len() && la[i] == x;
            assert((la + lb)[i] == x);
        }
        if lb.contains(x) {
            let i = choose|i: int| 0 <= i < lb.len() && lb[i] == x;
            assert((la + lb)[i + la.len()] == x);
        }
    }
    assert((la + lb).to_set() =~= la.to_set() + lb.to_set());
}


/// The generated entry for one word and one extension, as a line.
pub open spec fn ext_line(w: Seq<char>, e: Seq<char>) -> Seq<char> {
    w + seq!['.'] + e + seq!['\n']
}

/// `word.ext` for every word, in order.
pub open spec fn ext_block(words: Seq<Seq<char>>, e: Seq<char>) -> Seq<char>
    decreases words.len(),
{
    if words.len() == 0 {
        Seq::empty()
    } else {
        ext_block(words.drop_last(), e) + ext_line(words.last(), e)
    }
}

/// The text generated from the words crossed with the extensions: for each
/// extension in turn, a line `word.ext` for every word.
pub open spec fn expansion(words: Seq<Seq<char>>, exts: Seq<Seq<char>>) -> Seq<char>
    decreases exts.len(),
{
    if exts.len() == 0 {
        Seq::empty()
    } else {
        expansion(words, exts.drop_last()) + ext_block(words, exts.last())
    }
}

/// The extensions of a comma-separated list.
pub fn split_extensions(list: &str) -> (r: Vec<String>)
    ensures
        string_views(r@) == split_on(list@, ','),
{
    let cs = chars_of(list);
    let parts = split_chars(&cs, ',');
    let mut out: Vec<String> = Vec::new();
    let mut i: usize = 0;
    while i < parts.len()
        invariant
            i <= parts@.len(),
            views(parts@) == split_on(list@, ','),
            string_views(out@) == views(parts@).take(i as int),
        decreases parts@.len() - i,
    {
        let ghost prev = out@;
        out.push(string_of(&parts[i], 0, parts[i].len()));
        assert(parts@[i as int]@.subrange(0, parts@[i as int]@.len() as int) =~= parts@[i as int]@);
        assert(string_views(out@) =~= string_views(prev).push(parts@[i as int]@));
        assert(views(parts@).take(i + 1) =~= views(parts@).take(i as int).push(parts@[i as int]@));
        i = i + 1;
    }
    assert(views(parts@).take(parts@.len() as int) =~= views(parts@));
    out
}

/// Appends to `wordlist` a line `word.ext` for every line of `words` and
/// every extension, extension by extension.
pub fn add_extensions(wordlist: &mut String, words: &String, extensions: &Vec<String>)
    ensures
        final(wordlist)@ == old(wordlist)@ + expansion(lines_of(words@), string_views(extensions@)),
{
    let lines = split_lines(words.as_str());
    let ghost ls = string_views(lines@);
    let ghost es = string_views(extensions@);
    let mut x: usize = 0;
    while x < extensions.len()
        invariant
            x <= extensions@.len(),
            ls == string_views(lines@),
            ls == lines_of(words@),
            es == string_views(extensions@),
            wordlist@ == old(wordlist)@ + expansion(ls, es.take(x as int)),
        decreases extensions@.len() - x,
    {
        let e = &extensions[x];
        let ghost base = wordlist@;
        let mut y: usize = 0;
        while y < lines.len()
            invariant
                x < extensions@.len(),
                y <= lines@.len(),
                ls == string_views(lines@),
                e@ == es[x as int],
                wordlist@ == base + ext_block(ls.take(y as int), e@),
            decreases lines@.len() - y,
        {
            let ghost before = wordlist@;
            wordlist.append(lines[y].as_str());
            push_char(wordlist, '.');
            wordlist.append(e.as_str());
            push_char(wordlist, '\n');
            assert(ls.take(y + 1).drop_last() =~= ls.take(y as int));
            assert(ls.take(y + 1).last() == lines@[y as int]@);
            assert(wordlist@ =~= before + ext_line(lines@[y as int]@, e@));
            y = y + 1;
        }
        assert(ls.take(lines@.len() as int) =~= ls);
        assert(es.take(x + 1).drop_last() =~= es.take(x as int));
        assert(es.take(x + 1).last() == e@);
        x = x + 1;
    }
    assert(es.take(extensions@.len() as int) =~= es);
}


/// A string that can stand as one line: no `\n` in it, and no `\r` at its end.
pub open spec fn is_line(l: Seq<char>) -> bool {
    !l.contains('\n') && (l.len() == 0 || l.last() != '\r')
}

proof fn lemma_single_line(l: Seq<char>)
    requires
        is_line(l),
    ensures
        lines_of(l.push('\n')) == seq![l],
{
    lemma_split_on_no_sep(l, '\n');
    assert(l.push('\n').drop_last() =~= l);
    assert(split_on(l.push('\n'), '\n') =~= seq![l, Seq::<char>::empty()]);
    assert(lines_of(l.push('\n')) =~= seq![strip_cr(l)]);
}

/// The entries that one extension gives: `word.ext` for every word.
pub open spec fn with_extension(words: Seq<Seq<char>>, e: Seq<char>) -> Seq<Seq<char>> {
    words.map_values(|w: Seq<char>| w + seq!['.'] + e)
}

/// The entries that the extensions give, extension by extension.
pub open spec fn expansion_entries(words: Seq<Seq<char>>, exts: Seq<Seq<char>>) -> Seq<Seq<char>>
    decreases exts.len(),
{
    if exts.len() == 0 {
        Seq::empty()
    } else {
        expansion_entries(words, exts.drop_last()) + with_extension(words, exts.last())
    }
}

proof fn lemma_ext_block_lines(words: Seq<Seq<char>>, e: Seq<char>)
    requires
        forall|i: int| 0 <= i < words.len() ==> !(#[trigger] words[i]).contains('\n'),
        !e.contains('\n'),
        e.len() == 0 || e.last() != '\r',
    ensures
        ends_line(ext_block(words, e)),
        lines_of(ext_block(words, e)) == with_extension(words, e),
    decreases words.len(),
{
    if words.len() == 0 {
        assert(lines_of(Seq::<char>::empty()) =~= Seq::<Seq<char>>::empty());
        assert(with_extension(words, e) =~= Seq::<Seq<char>>::empty());
    } else {
        let w = words.last();
        let l = w + seq!['.'] + e;
        lemma_ext_block_lines(words.drop_last(), e);
        assert(words[words.len() - 1] == w);
        assert(!l.contains('\n')) by {
            if l.contains('\n') {
                let i = choose|i: int| 0 <= i < l.len() && l[i] == '\n';
                if i < w.len() {
                    assert(w[i] == '\n');
                } else if i > w.len() {
                    assert(e[i - w.len() - 1] == '\n');
                }
            }
        }
        if e.len() > 0 {
            assert(l.last() == e.last());
        }
        assert(ext_line(w, e) =~= l.push('\n'));
        lemma_single_line(l);
        lemma_lines_concat(ext_block(words.drop_last(), e), ext_line(w, e));
        assert(with_extension(words, e) =~= with_extension(words.drop_last(), e).push(l));
        assert(lines_of(ext_block(words, e)) =~= with_extension(words, e));
        assert(ext_block(words, e).last() == '\n');
    }
}

/// The lines that extension expansion adds are exactly `word.ext` for every
/// word and extension, when the words are lines and the extensions hold no
/// line break.
pub proof fn lemma_expansion_lines(words: Seq<Seq<char>>, exts: Seq<Seq<char>>)
    requires
        forall|i: int| 0 <= i < words.len() ==> !(#[trigger] words[i]).contains('\n'),
        forall|j: int| 0 <= j < exts.len() ==> is_line(#[trigger] exts[j]),
    ensures
        ends_line(expansion(words, exts)),
        lines_of(expansion(words, exts)) == expansion_entries(words, exts),
    decreases exts.len(),
{
    if exts.len() == 0 {
        assert(lines_of(Seq::<char>::empty()) =~= Seq::<Seq<char>>::empty());
    } else {
        let e = exts.last();
        assert(exts[exts.len() - 1] == e);
        lemma_expansion_lines(words, exts.drop_last());
        lemma_ext_block_lines(words, e);
        lemma_lines_concat(expansion(words, exts.drop_last()), ext_block(words, e));
        if ext_block(words, e).len() > 0 {
            assert(expansion(words, exts).last() == ext_block(words, e).last());
        } else {
            assert(expansion(words, exts) =~= expansion(words, exts.drop_last()));
        }
    }
}


/// What a technology adds to the corpus text: a wordlist's text, or the
/// small wordlist crossed with a list of extensions.
pub enum CorpusSource {
    Wordlist(String),
    Extensions(Vec<String>),
}

/// The text that one source adds.
pub open spec fn source_text(src: CorpusSource, small: Seq<char>) -> Seq<char> {
    match src {
        CorpusSource::Wordlist(t) => t@,
        CorpusSource::Extensions(es) => expansion(lines_of(small), string_views(es@)),
    }
}

/// The corpus text: the main wordlist, then what each source adds, in order.
pub open spec fn assembled(main: Seq<char>, small: Seq<char>, sources: Seq<CorpusSource>) -> Seq<char>
    decreases sources.len(),
{
    if sources.len() == 0 {
        main
    } else {
        assembled(main, small, sources.drop_last()) + source_text(sources.last(), small)
    }
}

/// Builds the corpus of one host: the main wordlist and what each source
/// adds, split into lines, folded for a case-insensitive target, each once.
pub fn build_corpus(main: &String, small: &String, sources: &Vec<CorpusSource>, iis: bool) -> (r: Vec<String>)
    ensures
        string_views(r@).no_duplicates(),
        string_views(r@).to_set() == corpus_of(assembled(main@, small@, sources@), iis),
{
    let mut text = main.clone();
    let mut i: usize = 0;
    while i < sources.len()
        invariant
            i <= sources@.len(),
            text@ == assembled(main@, small@, sources@.take(i as int)),
        decreases sources@.len() - i,
    {
        assert(sources@.take(i + 1).drop_last() =~= sources@.take(i as int));
        assert(sources@.take(i + 1).last() == sources@[i as int]);
        match &sources[i] {
            CorpusSource::Wordlist(t) => text.append(t.as_str()),
            CorpusSource::Extensions(es) => add_extensions(&mut text, small, es),
        }
        i = i + 1;
    }
    assert(sources@.take(sources@.len() as int) =~= sources@);
    sort_wordlist(&text, iis)
}

/// The corpus that the main wordlist and the sources give, each on its own.
pub open spec fn corpus_union(main: Seq<char>, small: Seq<char>, sources: Seq<CorpusSource>, fold: bool) -> Set<
    Seq<char>,
>
    decreases sources.len(),
{
    if sources.len() == 0 {
        corpus_of(main, fold)
    } else {
        corpus_union(main, small, sources.drop_last(), fold) + corpus_of(
            source_text(sources.last(), small),
            fold,
        )
    }
}

proof fn lemma_ext_block_ends_line(words: Seq<Seq<char>>, e: Seq<char>)
    ensures
        ends_line(ext_block(words, e)),
    decreases words.len(),
{
    if words.len() > 0 {
        lemma_ext_block_ends_line(words.drop_last(), e);
        let a = ext_block(words.drop_last(), e);
        let b = ext_line(words.last(), e);
        assert((a + b).last() == b.last());
    }
}

proof fn lemma_expansion_ends_line(words: Seq<Seq<char>>, exts: Seq<Seq<char>>)
    ensures
        ends_line(expansion(words, exts)),
    decreases exts.len(),
{
    if exts.len() > 0 {
        lemma_expansion_ends_line(words, exts.drop_last());
        lemma_ext_block_ends_line(words, exts.last());
        let a = expansion(words, exts.drop_last());
        let b = ext_block(words, exts.last());
        if b.len() > 0 {
            assert((a + b).last() == b.last());
        } else {
            assert(a + b =~= a);
        }
    }
}

/// Every source ends its last line (an expansion always does).
pub open spec fn sources_end_lines(sources: Seq<CorpusSource>) -> bool {
    forall|i: int|
        0 <= i < sources.len() ==> match #[trigger] sources[i] {
            CorpusSource::Wordlist(t) => ends_line(t@),
            CorpusSource::Extensions(_) => true,
        }
}

proof fn lemma_assembled_ends_line(main: Seq<char>, small: Seq<char>, sources: Seq<CorpusSource>)
    requires
        ends_line(main),
        sources_end_lines(sources),
    ensures
        ends_line(assembled(main, small, sources)),
    decreases sources.len(),
{
    if sources.len() > 0 {
        let last = sources.last();
        assert(sources[sources.len() - 1] == last);
        assert(sources_end_lines(sources.drop_last())) by {
            assert forall|i: int| 0 <= i < sources.drop_last().len() implies match #[trigger] sources.drop_last()[i] {
                CorpusSource::Wordlist(t) => ends_line(t@),
                CorpusSource::Extensions(_) => true,
            } by {
                assert(sources.drop_last()[i] == sources[i]);
            }
        }
        lemma_assembled_ends_line(main, small, sources.drop_last());
        let a = assembled(main, small, sources.drop_last());
        let b = source_text(last, small);
        match last {
            CorpusSource::Wordlist(t) => {},
            CorpusSource::Extensions(es) => {
                lemma_expansion_ends_line(lines_of(small), string_views(es@));
            },
        }
        if b.len() > 0 {
            assert((a + b).last() == b.last());
        } else {
            assert(a + b =~= a);
        }
    }
}

/// The corpus holds each line of every source, and nothing else: it is the
/// union of what the main wordlist, each technology wordlist and each
/// extension expansion give on their own, when each text ends its last line.
pub proof fn lemma_build_is_union(main: Seq<char>, small: Seq<char>, sources: Seq<CorpusSource>, fold: bool)
    requires
        ends_line(main),
        sources_end_lines(sources),
    ensures
        corpus_of(assembled(main, small, sources), fold) == corpus_union(main, small, sources, fold),
    decreases sources.len(),
{
    if sources.len() > 0 {
        assert(sources_end_lines(sources.drop_last())) by {
            assert forall|i: int| 0 <= i < sources.drop_last().len() implies match #[trigger] sources.drop_last()[i] {
                CorpusSource::Wordlist(t) => ends_line(t@),
                CorpusSource::Extensions(_) => true,
            } by {
                assert(sources.drop_last()[i] == sources[i]);
            }
        }
        lemma_build_is_union(main, small, sources.drop_last(), fold);
        lemma_assembled_ends_line(main, small, sources.drop_last());
        lemma_corpus_union(
            assembled(main, small, sources.drop_last()),
            source_text(sources.last(), small),
            fold,
        );
    }
}


/// No line holds a line break.
pub proof fn lemma_lines_have_no_break(s: Seq<char>)
    ensures
        forall|i: int| 0 <= i < lines_of(s).len() ==> !(#[trigger] lines_of(s)[i]).contains('\n'),
{
    lemma_split_on_pieces(s, '\n');
    lemma_split_on_nonempty(s, '\n');
    let parts = split_on(s, '\n');
    assert forall|i: int| 0 <= i < lines_of(s).len() implies !(#[trigger] lines_of(s)[i]).contains('\n') by {
        let p = parts[i];
        assert(!p.contains('\n'));
        if p.len() > 0 && p.last() == '\r' {
            assert(!p.drop_last().contains('\n')) by {
                if p.drop_last().contains('\n') {
                    let k = choose|k: int| 0 <= k < p.drop_last().len() && p.drop_last()[k] == '\n';
                    assert(p[k] == '\n');
                }
            }
        }
    }
}

/// What extension expansion adds to the corpus: for each extension in turn,
/// exactly one line `word.ext` for every line of the small wordlist.
pub proof fn lemma_added_lines(small: Seq<char>, exts: Seq<Seq<char>>)
    requires
        forall|j: int| 0 <= j < exts.len() ==> is_line(#[trigger] exts[j]),
    ensures
        lines_of(expansion(lines_of(small), exts)) == expansion_entries(lines_of(small), exts),
{
    lemma_lines_have_no_break(small);
    lemma_expansion_lines(lines_of(small), exts);
}

} // verus!
