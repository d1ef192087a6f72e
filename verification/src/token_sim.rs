//! Tier 2: token-set similarity. Each stored decision carries the token
//! set of its sanitized input; an incoming input matches when its token
//! set is Jaccard-similar to a stored one for the same tool.

use vstd::prelude::*;
use crate::decision::DecisionRecord;
use crate::path_policy::{sort_dedup, view_mem};
use crate::sanitize::split_words_exec;
use crate::text;

verus! {

use vstd::string::StringExecFns;

/// The lower-case form of an ASCII letter; other characters unchanged.
pub open spec fn lower_char(c: char) -> char {
    if c == 'A' {
        'a'
    } else if c == 'B' {
        'b'
    } else if c == 'C' {
        'c'
    } else if c == 'D' {
        'd'
    } else if c == 'E' {
        'e'
    } else if c == 'F' {
        'f'
    } else if c == 'G' {
        'g'
    } else if c == 'H' {
        'h'
    } else if c == 'I' {
        'i'
    } else if c == 'J' {
        'j'
    } else if c == 'K' {
        'k'
    } else if c == 'L' {
        'l'
    } else if c == 'M' {
        'm'
    } else if c == 'N' {
        'n'
    } else if c == 'O' {
        'o'
    } else if c == 'P' {
        'p'
    } else if c == 'Q' {
        'q'
    } else if c == 'R' {
        'r'
    } else if c == 'S' {
        's'
    } else if c == 'T' {
        't'
    } else if c == 'U' {
        'u'
    } else if c == 'V' {
        'v'
    } else if c == 'W' {
        'w'
    } else if c == 'X' {
        'x'
    } else if c == 'Y' {
        'y'
    } else if c == 'Z' {
        'z'
    } else {
        c
    }
}

/// Lower one character.
pub fn lower_char_exec(c: char) -> (r: char)
    ensures
        r == lower_char(c),
        !text::is_upper(r),
        !text::is_wsp(c) ==> !text::is_wsp(r),
{
    if c == 'A' {
        'a'
    } else if c == 'B' {
        'b'
    } else if c == 'C' {
        'c'
    } else if c == 'D' {
        'd'
    } else if c == 'E' {
        'e'
    } else if c == 'F' {
        'f'
    } else if c == 'G' {
        'g'
    } else if c == 'H' {
        'h'
    } else if c == 'I' {
        'i'
    } else if c == 'J' {
        'j'
    } else if c == 'K' {
        'k'
    } else if c == 'L' {
        'l'
    } else if c == 'M' {
        'm'
    } else if c == 'N' {
        'n'
    } else if c == 'O' {
        'o'
    } else if c == 'P' {
        'p'
    } else if c == 'Q' {
        'q'
    } else if c == 'R' {
        'r'
    } else if c == 'S' {
        's'
    } else if c == 'T' {
        't'
    } else if c == 'U' {
        'u'
    } else if c == 'V' {
        'v'
    } else if c == 'W' {
        'w'
    } else if c == 'X' {
        'x'
    } else if c == 'Y' {
        'y'
    } else if c == 'Z' {
        'z'
    } else {
        c
    }
}


/// A word lower-cased character by character.
pub open spec fn lower_seq(w: Seq<char>) -> Seq<char> {
    w.map_values(|c: char| lower_char(c))
}

/// The first index at or after `i` holding an alphanumeric character,
/// or the length.
pub open spec fn first_alnum(w: Seq<char>, i: int) -> int
    decreases w.len() - i,
{
    if i < 0 || i >= w.len() {
        w.len() as int
    } else if text::is_alnum(w[i]) {
        i
    } else {
        first_alnum(w, i + 1)
    }
}

/// One past the last alphanumeric character before `i`, or zero.
pub open spec fn last_alnum_end(w: Seq<char>, i: int) -> int
    decreases i,
{
    if i <= 0 || i > w.len() {
        0
    } else if text::is_alnum(w[i - 1]) {
        i
    } else {
        last_alnum_end(w, i - 1)
    }
}

/// A word with surrounding punctuation trimmed: the span from its first
/// alphanumeric character to its last, empty when it has none.
pub open spec fn trim_spec(w: Seq<char>) -> Seq<char> {
    let a = first_alnum(w, 0);
    let b = last_alnum_end(w, w.len() as int);
    if a < b {
        w.subrange(a, b)
    } else {
        Seq::empty()
    }
}

/// The normalised form of one word: lower-cased, then trimmed.
pub open spec fn norm_token(w: Seq<char>) -> Seq<char> {
    trim_spec(lower_seq(w))
}

/// The filtered stop tokens: common fillers that carry no signal.
pub open spec fn is_stop(t: Seq<char>) -> bool {
    t == "the"@ || t == "a"@ || t == "an"@ || t == "and"@ || t == "or"@ || t == "to"@ || t
        == "of"@ || t == "in"@ || t == "is"@
}

/// Whether a normalised word survives the filter.
pub open spec fn keep_token(t: Seq<char>) -> bool {
    t.len() > 0 && !is_stop(t)
}

/// A normalised token: non-empty, without upper-case ASCII letters and
/// without whitespace.
pub open spec fn good_token(t: Seq<char>) -> bool {
    t.len() > 0 && forall|i: int|
        0 <= i < t.len() ==> !text::is_upper(#[trigger] t[i]) && !text::is_wsp(t[i])
}

/// Whether the token is one of the filtered stop tokens.
fn is_stop_token(w: &Vec<char>) -> (r: bool)
    ensures
        r == is_stop(w@),
{
    let s = text::chars_to_string(w);
    s == String::from_str("the") || s == String::from_str("a") || s == String::from_str("an")
        || s == String::from_str("and") || s == String::from_str("or") || s == String::from_str(
        "to",
    ) || s == String::from_str("of") || s == String::from_str("in") || s == String::from_str("is")
}

/// `x` is the normalised form of some word of the list.
pub open spec fn token_from(ws: Seq<Seq<char>>, x: Seq<char>) -> bool {
    exists|t: int| 0 <= t < ws.len() && x == norm_token(#[trigger] ws[t])
}

/// The defining properties of a token set for an input: strictly
/// sorted and distinct, every token the kept normalisation of one of
/// the input's words, and every kept normalisation present.
pub open spec fn token_set_of(tokens: Seq<String>, input: Seq<char>) -> bool {
    &&& forall|i: int, j: int|
        #![trigger tokens[i], tokens[j]]
        0 <= i < j < tokens.len() ==> crate::roles::lex_le(tokens[i]@, tokens[j]@) && tokens[i]@
            != tokens[j]@
    &&& forall|k: int|
        0 <= k < tokens.len() ==> token_from(text::words_of(input), (#[trigger] tokens[k])@)
            && keep_token(tokens[k]@)
    &&& forall|t: int|
        0 <= t < text::words_of(input).len() && keep_token(
            norm_token(#[trigger] text::words_of(input)[t]),
        ) ==> view_mem(tokens, norm_token(text::words_of(input)[t]))
}

/// The characters before the first alphanumeric one are not
/// alphanumeric, and the first one is, when it exists.
proof fn lemma_first_alnum(w: Seq<char>, i: int)
    requires
        0 <= i <= w.len(),
    ensures
        i <= first_alnum(w, i) <= w.len(),
        forall|j: int| i <= j < first_alnum(w, i) ==> !text::is_alnum(w[j]),
        first_alnum(w, i) < w.len() ==> text::is_alnum(w[first_alnum(w, i)]),
    decreases w.len() - i,
{
    if i < w.len() && !text::is_alnum(w[i]) {
        lemma_first_alnum(w, i + 1);
    }
}

/// With nothing alphanumeric before `i`, the trailing scan reaches zero.
proof fn lemma_last_alnum_zero(w: Seq<char>, i: int)
    requires
        0 <= i <= w.len(),
        forall|j: int| 0 <= j < i ==> !text::is_alnum(w[j]),
    ensures
        last_alnum_end(w, i) == 0,
    decreases i,
{
    if i > 0 {
        lemma_last_alnum_zero(w, i - 1);
    }
}

/// Shell-tokenise a sanitized input for similarity comparison: split on
/// whitespace, lower-case, trim surrounding punctuation, drop empty and
/// stop tokens, sort and deduplicate. The result holds exactly the
/// distinct kept normalisations of the input's words, strictly sorted.
pub fn tokenize(s: &str) -> (r: Vec<String>)
    ensures
        forall|i: int, j: int|
            #![trigger r@[i], r@[j]]
            0 <= i < j < r@.len() ==> crate::roles::lex_le(r@[i]@, r@[j]@) && r@[i]@ != r@[j]@,
        forall|k: int| 0 <= k < r@.len() ==> good_token((#[trigger] r@[k])@),
        forall|k: int|
            0 <= k < r@.len() ==> token_from(text::words_of(s@), (#[trigger] r@[k])@)
                && keep_token(r@[k]@),
        forall|t: int|
            0 <= t < text::words_of(s@).len() && keep_token(
                norm_token(#[trigger] text::words_of(s@)[t]),
            ) ==> view_mem(r@, norm_token(text::words_of(s@)[t])),
        token_set_of(r@, s@),
{
    let v = text::str_to_chars(s);
    let ghost wseq = text::words_of(v@);
    let words = split_words_exec(&v);
    proof {
        text::lemma_words_clean(v@, 0);
    }
    let mut kept: Vec<String> = Vec::new();
    let mut k: usize = 0;
    while k < words.len()
        invariant
            0 <= k <= words@.len(),
            wseq == text::words_of(v@),
            v@ == s@,
            words@.map_values(|w: Vec<char>| w@) == wseq,
            forall|t: int| 0 <= t < wseq.len() ==> #[trigger] text::clean_word(wseq[t]),
            forall|j: int|
                0 <= j < kept@.len() ==> good_token((#[trigger] kept@[j])@) && token_from(
                    wseq,
                    kept@[j]@,
                ) && keep_token(kept@[j]@),
            forall|t: int|
                0 <= t < k && keep_token(norm_token(#[trigger] wseq[t])) ==> view_mem(
                    kept@,
                    norm_token(wseq[t]),
                ),
        decreases words@.len() - k,
    {
        let w = &words[k];
        proof {
            assert(words@.map_values(|x: Vec<char>| x@)[k as int] == w@);
            assert(w@ == wseq[k as int]);
            assert(text::clean_word(w@));
        }
        // Lower-case the word.
        let mut low: Vec<char> = Vec::new();
        let mut t: usize = 0;
        while t < w.len()
            invariant
                0 <= t <= w@.len(),
                low@.len() == t,
                text::clean_word(w@),
                forall|u: int| 0 <= u < t ==> #[trigger] low@[u] == lower_char(w@[u]),
                forall|u: int|
                    0 <= u < t ==> !text::is_upper(#[trigger] low@[u]) && !text::is_wsp(low@[u]),
            decreases w@.len() - t,
        {
            assert(!text::is_wsp(w@[t as int]));
            low.push(lower_char_exec(w[t]));
            t = t + 1;
        }
        proof {
            assert(low@ =~= lower_seq(w@));
        }
        // Trim leading non-alphanumeric characters.
        let mut a: usize = 0;
        let n = low.len();
        while a < n && !text::is_alnum_char(low[a])
            invariant
                0 <= a <= n,
                n == low@.len(),
                first_alnum(low@, 0) == first_alnum(low@, a as int),
            decreases n - a,
        {
            a = a + 1;
        }
        proof {
            assert(first_alnum(low@, 0) == a);
            lemma_first_alnum(low@, 0);
        }
        // Trim trailing non-alphanumeric characters.
        let mut b: usize = n;
        while b > a && !text::is_alnum_char(low[b - 1])
            invariant
                a <= b <= n,
                n == low@.len(),
                first_alnum(low@, 0) == a,
                last_alnum_end(low@, n as int) == last_alnum_end(low@, b as int),
            decreases b,
        {
            b = b - 1;
        }
        proof {
            if b > a {
                assert(last_alnum_end(low@, b as int) == b);
            } else {
                lemma_last_alnum_zero(low@, a as int);
                assert(last_alnum_end(low@, b as int) == 0);
            }
        }
        let mut token: Vec<char> = Vec::new();
        let mut u: usize = a;
        while u < b
            invariant
                a <= u <= b <= n,
                n == low@.len(),
                token@ == low@.subrange(a as int, u as int),
                forall|x: int|
                    0 <= x < low@.len() ==> !text::is_upper(#[trigger] low@[x]) && !text::is_wsp(
                        low@[x],
                    ),
            decreases b - u,
        {
            token.push(low[u]);
            assert(token@ =~= low@.subrange(a as int, u + 1));
            u = u + 1;
        }
        proof {
            if b > a {
                assert(token@ =~= trim_spec(low@));
            } else {
                assert(token@ =~= trim_spec(low@));
            }
            assert(token@ == norm_token(w@));
        }
        if token.len() > 0 && !is_stop_token(&token) {
            let ghost before = kept@;
            kept.push(text::chars_to_string(&token));
            proof {
                assert(forall|t2: int| 0 <= t2 < before.len() ==> kept@[t2] == before[t2]);
                assert(kept@[before.len() as int]@ == token@);
                assert(good_token(token@));
                assert(keep_token(token@));
                assert(token@ == norm_token(wseq[k as int]));
                assert(token_from(wseq, token@));
                assert forall|t2: int|
                    0 <= t2 < k + 1 && keep_token(norm_token(#[trigger] wseq[t2])) implies
                    view_mem(kept@, norm_token(wseq[t2])) by {
                    if t2 < k {
                        let j = choose|j: int|
                            0 <= j < before.len() && (#[trigger] before[j])@ == norm_token(
                                wseq[t2],
                            );
                        assert(kept@[j]@ == norm_token(wseq[t2]));
                    } else {
                        assert(kept@[before.len() as int]@ == norm_token(wseq[t2]));
                    }
                }
            }
        } else {
            proof {
                assert(!keep_token(norm_token(wseq[k as int])));
            }
        }
        k = k + 1;
    }
    let r = sort_dedup(kept);
    proof {
        assert forall|k2: int|
            0 <= k2 < r@.len() implies good_token((#[trigger] r@[k2])@) && token_from(
            wseq,
            r@[k2]@,
        ) && keep_token(r@[k2]@) by {
            assert(view_mem(kept@, r@[k2]@));
            let t = choose|t: int| 0 <= t < kept@.len() && (#[trigger] kept@[t])@ == r@[k2]@;
        }
        assert forall|t: int|
            0 <= t < wseq.len() && keep_token(norm_token(#[trigger] wseq[t])) implies view_mem(
            r@,
            norm_token(wseq[t]),
        ) by {
            let j = choose|j: int|
                0 <= j < kept@.len() && (#[trigger] kept@[j])@ == norm_token(wseq[t]);
            assert(view_mem(r@, kept@[j]@));
        }
    }
    r
}

/// How many elements of `a` also occur in `b`, by value.
pub open spec fn count_in(a: Seq<String>, b: Seq<String>) -> int
    decreases a.len(),
{
    if a.len() == 0 {
        0
    } else {
        (if view_mem(b, a[0]@) {
            1int
        } else {
            0int
        }) + count_in(a.drop_first(), b)
    }
}

/// The Jaccard similarity of two token sets, in thousandths, capped at
/// one thousand. Zero when both sets are empty.
pub open spec fn score_milli(a: Seq<String>, b: Seq<String>) -> int {
    let inter = count_in(a, b);
    let uni = a.len() + b.len() - inter;
    if uni <= 0 {
        0
    } else if inter * 1000 / uni > 1000 {
        1000
    } else {
        inter * 1000 / uni
    }
}

/// Whether the similarity strictly exceeds the threshold.
pub open spec fn jaccard_accepts(a: Seq<String>, b: Seq<String>, threshold_milli: int) -> bool {
    let inter = count_in(a, b);
    let uni = a.len() + b.len() - inter;
    inter * 1000 > threshold_milli * uni
}

/// Whether the list holds an element reading as `x`.
fn contains_str(b: &Vec<String>, x: &String) -> (r: bool)
    ensures
        r == view_mem(b@, x@),
{
    let mut i: usize = 0;
    while i < b.len()
        invariant
            0 <= i <= b@.len(),
            forall|t: int| 0 <= t < i ==> (#[trigger] b@[t])@ != x@,
        decreases b@.len() - i,
    {
        if b[i] == *x {
            return true;
        }
        i = i + 1;
    }
    false
}

/// Count how many elements of `a` occur in `b`.
fn count_in_exec(a: &Vec<String>, b: &Vec<String>) -> (r: usize)
    ensures
        r as int == count_in(a@, b@),
        r <= a@.len(),
{
    let ghost av = a@;
    proof {
        assert(av.skip(0) =~= av);
    }
    let mut r: usize = 0;
    let mut i: usize = 0;
    while i < a.len()
        invariant
            0 <= i <= av.len(),
            av == a@,
            r <= i,
            count_in(av, b@) == r + count_in(av.skip(i as int), b@),
        decreases av.len() - i,
    {
        proof {
            assert(av.skip(i as int)[0] == av[i as int]);
            assert(av.skip(i as int).drop_first() =~= av.skip(i + 1));
        }
        if contains_str(b, &a[i]) {
            r = r + 1;
        }
        i = i + 1;
    }
    proof {
        assert(count_in(av.skip(i as int), b@) == 0);
    }
    r
}

/// One stored decision with its token set.
pub struct TokenEntry {
    pub tokens: Vec<String>,
    pub record: DecisionRecord,
}

/// Tier 2 state: a stored token set per decision, and the thresholds.
pub struct TokenJaccard {
    /// Acceptance threshold in thousandths; a match must exceed it.
    pub threshold_milli: u32,
    /// Minimum incoming token count for the tier to apply.
    pub min_tokens: usize,
    /// The stored entries.
    pub entries: Vec<TokenEntry>,
}

impl TokenJaccard {
    /// The stored entries.
    pub open spec fn entries_spec(&self) -> Seq<TokenEntry> {
        self.entries@
    }

    /// An entry that the incoming call can match: same tool, similarity
    /// over the threshold.
    pub open spec fn qualifies(&self, e: TokenEntry, tool: Seq<char>, q: Seq<String>) -> bool {
        e.record.key.tool@ == tool && jaccard_accepts(q, e.tokens@, self.threshold_milli as int)
    }

    /// An empty index.
    pub fn new(threshold_milli: u32, min_tokens: usize) -> (r: TokenJaccard)
        ensures
            r.threshold_milli == threshold_milli,
            r.min_tokens == min_tokens,
            r.entries_spec().len() == 0,
    {
        TokenJaccard { threshold_milli, min_tokens, entries: Vec::new() }
    }

    /// Add one decision with its token set.
    pub fn insert_entry(&mut self, tokens: Vec<String>, record: DecisionRecord)
        ensures
            final(self).entries_spec().len() == old(self).entries_spec().len() + 1,
            final(self).entries_spec().last().tokens@ == tokens@,
            final(self).entries_spec().last().record == record,
            forall|i: int|
                0 <= i < old(self).entries_spec().len() ==> #[trigger] final(self).entries_spec()[
                    i
                ] == old(self).entries_spec()[i],
            final(self).threshold_milli == old(self).threshold_milli,
            final(self).min_tokens == old(self).min_tokens,
    {
        self.entries.push(TokenEntry { tokens, record });
    }

    /// Add one decision, tokenising its sanitized input.
    pub fn insert(&mut self, record: &DecisionRecord)
        ensures
            final(self).entries_spec().len() == old(self).entries_spec().len() + 1,
            final(self).entries_spec().last().record == *record,
            token_set_of(
                final(self).entries_spec().last().tokens@,
                record.key.sanitized_input@,
            ),
            forall|i: int|
                0 <= i < old(self).entries_spec().len() ==> #[trigger] final(self).entries_spec()[
                    i
                ] == old(self).entries_spec()[i],
            final(self).threshold_milli == old(self).threshold_milli,
            final(self).min_tokens == old(self).min_tokens,
    {
        let tokens = tokenize(record.key.sanitized_input.as_str());
        self.insert_entry(tokens, record.clone());
    }

    /// Seed the index from loaded records: one entry per record, in
    /// order, each carrying the token set of its sanitized input.
    pub fn load_from(&mut self, records: &Vec<DecisionRecord>)
        ensures
            final(self).threshold_milli == old(self).threshold_milli,
            final(self).min_tokens == old(self).min_tokens,
            final(self).entries_spec().len() == old(self).entries_spec().len() + records@.len(),
            forall|i: int|
                0 <= i < old(self).entries_spec().len() ==> #[trigger] final(self).entries_spec()[
                    i
                ] == old(self).entries_spec()[i],
            forall|t: int|
                0 <= t < records@.len() ==> {
                    let e = #[trigger] final(self).entries_spec()[old(self).entries_spec().len()
                        + t];
                    e.record == records@[t] && token_set_of(
                        e.tokens@,
                        records@[t].key.sanitized_input@,
                    )
                },
    {
        let ghost base = self.entries@.len();
        let mut i: usize = 0;
        while i < records.len()
            invariant
                0 <= i <= records@.len(),
                base == old(self).entries_spec().len(),
                self.threshold_milli == old(self).threshold_milli,
                self.min_tokens == old(self).min_tokens,
                self.entries@.len() == base + i,
                forall|j: int|
                    0 <= j < base ==> #[trigger] self.entries@[j] == old(self).entries_spec()[j],
                forall|t: int|
                    0 <= t < i ==> {
                        let e = #[trigger] self.entries@[base + t];
                        e.record == records@[t] && token_set_of(
                            e.tokens@,
                            records@[t].key.sanitized_input@,
                        )
                    },
            decreases records@.len() - i,
        {
            self.insert(&records[i]);
            i = i + 1;
        }
    }

    /// Evaluate the incoming token set against every stored entry for
    /// the same tool. The best qualifying entry wins: highest similarity
    /// in thousandths, ties broken by the most recent timestamp. Too few
    /// incoming tokens, or no qualifying entry, falls through.
    pub fn evaluate(&self, tool: &str, q: &Vec<String>) -> (r: Option<(DecisionRecord, u32)>)
        ensures
            r is None <==> q@.len() < self.min_tokens || (forall|i: int|
                0 <= i < self.entries_spec().len() ==> !self.qualifies(
                    #[trigger] self.entries_spec()[i],
                    tool@,
                    q@,
                )),
            r matches Some((rec, sc)) ==> exists|i: int|
                {
                    &&& 0 <= i < self.entries_spec().len()
                    &&& self.qualifies(#[trigger] self.entries_spec()[i], tool@, q@)
                    &&& rec == self.entries_spec()[i].record
                    &&& sc as int == score_milli(q@, self.entries_spec()[i].tokens@)
                },
            r matches Some((rec, sc)) ==> forall|i: int|
                0 <= i < self.entries_spec().len() && self.qualifies(
                    #[trigger] self.entries_spec()[i],
                    tool@,
                    q@,
                ) ==> score_milli(q@, self.entries_spec()[i].tokens@) < sc as int || (score_milli(
                    q@,
                    self.entries_spec()[i].tokens@,
                ) == sc as int && self.entries_spec()[i].record.timestamp <= rec.timestamp),
    {
        if q.len() < self.min_tokens {
            return None;
        }
        let tool_s = String::from_str(tool);
        let mut best: Option<(usize, u32)> = None;
        let mut i: usize = 0;
        while i < self.entries.len()
            invariant
                0 <= i <= self.entries@.len(),
                tool_s@ == tool@,
                best is None ==> forall|t: int|
                    0 <= t < i ==> !self.qualifies(#[trigger] self.entries@[t], tool@, q@),
                best matches Some((bi, sc)) ==> {
                    &&& 0 <= bi < i
                    &&& self.qualifies(self.entries@[bi as int], tool@, q@)
                    &&& sc as int == score_milli(q@, self.entries@[bi as int].tokens@)
                    &&& forall|t: int|
                        0 <= t < i && self.qualifies(#[trigger] self.entries@[t], tool@, q@)
                            ==> score_milli(q@, self.entries@[t].tokens@) < sc as int || (
                        score_milli(q@, self.entries@[t].tokens@) == sc as int
                            && self.entries@[t].record.timestamp <= self.entries@[
                            bi as int
                        ].record.timestamp)
                },
            decreases self.entries@.len() - i,
        {
            let e = &self.entries[i];
            if e.record.key.tool == tool_s {
                let inter = count_in_exec(q, &e.tokens);
                let qn = q.len();
                let en = e.tokens.len();
                let uni: u128 = (qn as u128) + (en as u128) - (inter as u128);
                let th128: u128 = self.threshold_milli as u128;
                proof {
                    assert(th128 < 0x1_0000_0000);
                    assert(uni < 0x4_0000_0000_0000_0000);
                    assert(th128 * uni < 0x1_0000_0000u128 * 0x4_0000_0000_0000_0000u128)
                        by (nonlinear_arith)
                        requires
                            th128 < 0x1_0000_0000,
                            uni < 0x4_0000_0000_0000_0000,
                    ;
                }
                let accepted = (inter as u128) * 1000 > th128 * uni;
                if accepted {
                    let raw: u128 = if uni == 0 {
                        0
                    } else {
                        (inter as u128) * 1000 / uni
                    };
                    let sc: u32 = if raw > 1000 {
                        1000
                    } else {
                        raw as u32
                    };
                    proof {
                        assert(sc as int == score_milli(q@, self.entries@[i as int].tokens@));
                        assert(self.qualifies(self.entries@[i as int], tool@, q@));
                    }
                    let replace = match &best {
                        None => true,
                        Some((bi, bsc)) => sc > *bsc || (sc == *bsc && e.record.timestamp
                            > self.entries[*bi].record.timestamp),
                    };
                    if replace {
                        best = Some((i, sc));
                    }
                } else {
                    proof {
                        assert(!self.qualifies(self.entries@[i as int], tool@, q@));
                    }
                }
            } else {
                proof {
                    assert(!self.qualifies(self.entries@[i as int], tool@, q@));
                }
            }
            i = i + 1;
        }
        match best {
            None => None,
            Some((bi, sc)) => Some((self.entries[bi].record.clone(), sc)),
        }
    }
}


/// The values of a string sequence.
pub open spec fn views_of(s: Seq<String>) -> Seq<Seq<char>> {
    s.map_values(|x: String| x@)
}

/// Membership depends only on the strings' values.
proof fn lemma_view_mem_congr(b1: Seq<String>, b2: Seq<String>, x: Seq<char>)
    requires
        views_of(b1) == views_of(b2),
    ensures
        view_mem(b1, x) == view_mem(b2, x),
{
    assert(views_of(b1).len() == b1.len());
    assert(views_of(b2).len() == b2.len());
    assert(b1.len() == b2.len());
    if view_mem(b1, x) {
        let k = choose|k: int| 0 <= k < b1.len() && (#[trigger] b1[k])@ == x;
        assert(views_of(b1)[k] == b1[k]@);
        assert(b2[k]@ == views_of(b2)[k]);
        assert(b2[k]@ == x);
    }
    if view_mem(b2, x) {
        let k = choose|k: int| 0 <= k < b2.len() && (#[trigger] b2[k])@ == x;
        assert(views_of(b2)[k] == b2[k]@);
        assert(b1[k]@ == views_of(b1)[k]);
        assert(b1[k]@ == x);
    }
}

/// The intersection count depends only on the strings' values.
proof fn lemma_count_in_congr(a1: Seq<String>, a2: Seq<String>, b: Seq<String>)
    requires
        views_of(a1) == views_of(a2),
    ensures
        count_in(a1, b) == count_in(a2, b),
    decreases a1.len(),
{
    assert(views_of(a1).len() == a1.len());
    assert(views_of(a2).len() == a2.len());
    assert(a1.len() == a2.len());
    if a1.len() > 0 {
        assert(views_of(a1)[0] == a1[0]@);
        assert(views_of(a2)[0] == a2[0]@);
        assert(a1[0]@ == a2[0]@);
        assert(views_of(a1.drop_first()) =~= views_of(a2.drop_first())) by {
            assert(forall|i: int|
                0 <= i < a1.len() - 1 ==> (#[trigger] a1.drop_first()[i])@ == a1[i + 1]@
                    && a1[i + 1]@ == views_of(a1)[i + 1]);
            assert(forall|i: int|
                0 <= i < a2.len() - 1 ==> (#[trigger] a2.drop_first()[i])@ == a2[i + 1]@
                    && a2[i + 1]@ == views_of(a2)[i + 1]);
        }
        lemma_count_in_congr(a1.drop_first(), a2.drop_first(), b);
    }
}

/// Two strictly sorted lists with the same values hold them in the same
/// order.
proof fn lemma_strict_sorted_unique(q1: Seq<String>, q2: Seq<String>)
    requires
        forall|i: int, j: int|
            #![trigger q1[i], q1[j]]
            0 <= i < j < q1.len() ==> crate::roles::lex_le(q1[i]@, q1[j]@) && q1[i]@ != q1[j]@,
        forall|i: int, j: int|
            #![trigger q2[i], q2[j]]
            0 <= i < j < q2.len() ==> crate::roles::lex_le(q2[i]@, q2[j]@) && q2[i]@ != q2[j]@,
        forall|x: Seq<char>| #[trigger] view_mem(q1, x) == view_mem(q2, x),
    ensures
        views_of(q1) == views_of(q2),
    decreases q1.len(),
{
    if q1.len() == 0 {
        if q2.len() > 0 {
            assert(view_mem(q2, q2[0]@));
            assert(view_mem(q1, q2[0]@));
            let k = choose|k: int| 0 <= k < q1.len() && (#[trigger] q1[k])@ == q2[0]@;
            assert(false);
        }
        assert(views_of(q1) =~= views_of(q2));
    } else {
        assert(view_mem(q1, q1[0]@));
        assert(view_mem(q2, q1[0]@));
        if q2.len() == 0 {
            let k = choose|k: int| 0 <= k < q2.len() && (#[trigger] q2[k])@ == q1[0]@;
            assert(false);
        }
        // The heads agree: each head is at most the other.
        let j = choose|j: int| 0 <= j < q2.len() && (#[trigger] q2[j])@ == q1[0]@;
        assert(view_mem(q2, q2[0]@));
        assert(view_mem(q1, q2[0]@));
        let i = choose|i: int| 0 <= i < q1.len() && (#[trigger] q1[i])@ == q2[0]@;
        crate::roles::lemma_lex_total(q1[0]@, q1[0]@);
        if j > 0 {
            assert(crate::roles::lex_le(q2[0]@, q2[j]@));
        }
        if i > 0 {
            assert(crate::roles::lex_le(q1[0]@, q1[i]@));
        }
        crate::path_policy::lemma_lex_antisym(q1[0]@, q2[0]@);
        assert(q1[0]@ == q2[0]@);
        // The tails carry the same values: the head is in neither tail.
        let t1 = q1.drop_first();
        let t2 = q2.drop_first();
        assert forall|x: Seq<char>| #[trigger] view_mem(t1, x) == view_mem(t2, x) by {
            if view_mem(t1, x) {
                let k = choose|k: int| 0 <= k < t1.len() && (#[trigger] t1[k])@ == x;
                assert(t1[k] == q1[k + 1]);
                assert(q1[0]@ != x);
                assert(view_mem(q1, x));
                assert(view_mem(q2, x));
                let m = choose|m: int| 0 <= m < q2.len() && (#[trigger] q2[m])@ == x;
                assert(m != 0);
                assert(t2[m - 1] == q2[m]);
                assert(view_mem(t2, x));
            }
            if view_mem(t2, x) {
                let k = choose|k: int| 0 <= k < t2.len() && (#[trigger] t2[k])@ == x;
                assert(t2[k] == q2[k + 1]);
                assert(q2[0]@ != x);
                assert(view_mem(q2, x));
                assert(view_mem(q1, x));
                let m = choose|m: int| 0 <= m < q1.len() && (#[trigger] q1[m])@ == x;
                assert(m != 0);
                assert(t1[m - 1] == q1[m]);
                assert(view_mem(t1, x));
            }
        }
        assert(forall|i2: int, j2: int|
            #![trigger t1[i2], t1[j2]]
            0 <= i2 < j2 < t1.len() ==> crate::roles::lex_le(t1[i2]@, t1[j2]@) && t1[i2]@
                != t1[j2]@) by {
            assert(forall|i2: int| 0 <= i2 < t1.len() ==> #[trigger] t1[i2] == q1[i2 + 1]);
        }
        assert(forall|i2: int, j2: int|
            #![trigger t2[i2], t2[j2]]
            0 <= i2 < j2 < t2.len() ==> crate::roles::lex_le(t2[i2]@, t2[j2]@) && t2[i2]@
                != t2[j2]@) by {
            assert(forall|i2: int| 0 <= i2 < t2.len() ==> #[trigger] t2[i2] == q2[i2 + 1]);
        }
        lemma_strict_sorted_unique(t1, t2);
        assert(views_of(t1).len() == t1.len());
        assert(views_of(t2).len() == t2.len());
        assert(q1.len() == q2.len());
        assert forall|k: int| 0 <= k < q1.len() implies #[trigger] views_of(q1)[k] == views_of(
            q2,
        )[k] by {
            assert(views_of(q1)[k] == q1[k]@);
            assert(views_of(q2)[k] == q2[k]@);
            if k > 0 {
                assert(t1[k - 1] == q1[k]);
                assert(t2[k - 1] == q2[k]);
                assert(views_of(t1)[k - 1] == t1[k - 1]@);
                assert(views_of(t2)[k - 1] == t2[k - 1]@);
            }
        }
        assert(views_of(q1) =~= views_of(q2));
    }
}

/// Any two token sets of one input hold the same values.
pub proof fn lemma_token_set_unique(q1: Seq<String>, q2: Seq<String>, input: Seq<char>)
    requires
        token_set_of(q1, input),
        token_set_of(q2, input),
    ensures
        views_of(q1) == views_of(q2),
{
    assert forall|x: Seq<char>| #[trigger] view_mem(q1, x) == view_mem(q2, x) by {
        if view_mem(q1, x) {
            let k = choose|k: int| 0 <= k < q1.len() && (#[trigger] q1[k])@ == x;
            let t = choose|t: int|
                0 <= t < text::words_of(input).len() && x == norm_token(
                    #[trigger] text::words_of(input)[t],
                );
            assert(keep_token(norm_token(text::words_of(input)[t])));
            assert(view_mem(q2, norm_token(text::words_of(input)[t])));
        }
        if view_mem(q2, x) {
            let k = choose|k: int| 0 <= k < q2.len() && (#[trigger] q2[k])@ == x;
            let t = choose|t: int|
                0 <= t < text::words_of(input).len() && x == norm_token(
                    #[trigger] text::words_of(input)[t],
                );
            assert(keep_token(norm_token(text::words_of(input)[t])));
            assert(view_mem(q1, norm_token(text::words_of(input)[t])));
        }
    }
    lemma_strict_sorted_unique(q1, q2);
}

/// Whether some stored entry for this tool is Jaccard-similar to the
/// input's token set; a property of the input text, the tool and the
/// stored entries alone.
pub open spec fn token_resolves(
    entries: Seq<TokenEntry>,
    tool: Seq<char>,
    input: Seq<char>,
    threshold_milli: u32,
    min_tokens: int,
) -> bool {
    exists|q: Seq<String>|
        #![trigger token_set_of(q, input)]
        token_set_of(q, input) && q.len() >= min_tokens && exists|i: int|
            0 <= i < entries.len() && (#[trigger] entries[i]).record.key.tool@ == tool
                && jaccard_accepts(q, entries[i].tokens@, threshold_milli as int)
}

/// The token tier's outcome is the same for every token set of the
/// input: whichever is used, the same entries qualify.
pub proof fn lemma_token_resolves_agrees(
    entries: Seq<TokenEntry>,
    tool: Seq<char>,
    input: Seq<char>,
    threshold_milli: u32,
    min_tokens: int,
    q0: Seq<String>,
)
    requires
        token_set_of(q0, input),
    ensures
        token_resolves(entries, tool, input, threshold_milli, min_tokens) == (q0.len()
            >= min_tokens && exists|i: int|
            0 <= i < entries.len() && (#[trigger] entries[i]).record.key.tool@ == tool
                && jaccard_accepts(q0, entries[i].tokens@, threshold_milli as int)),
{
    if token_resolves(entries, tool, input, threshold_milli, min_tokens) {
        let q = choose|q: Seq<String>|
            #![trigger token_set_of(q, input)]
            token_set_of(q, input) && q.len() >= min_tokens && exists|i: int|
                0 <= i < entries.len() && (#[trigger] entries[i]).record.key.tool@ == tool
                    && jaccard_accepts(q, entries[i].tokens@, threshold_milli as int);
        lemma_token_set_unique(q, q0, input);
        assert(views_of(q).len() == q.len());
        assert(views_of(q0).len() == q0.len());
        assert(q.len() == q0.len());
        let i = choose|i: int|
            0 <= i < entries.len() && (#[trigger] entries[i]).record.key.tool@ == tool
                && jaccard_accepts(q, entries[i].tokens@, threshold_milli as int);
        lemma_count_in_congr(q, q0, entries[i].tokens@);
        assert(jaccard_accepts(q0, entries[i].tokens@, threshold_milli as int));
    }
    if q0.len() >= min_tokens && exists|i: int|
        0 <= i < entries.len() && (#[trigger] entries[i]).record.key.tool@ == tool
            && jaccard_accepts(q0, entries[i].tokens@, threshold_milli as int) {
        assert(token_set_of(q0, input));
    }
}

} // verus!
