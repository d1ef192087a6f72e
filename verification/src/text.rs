//! Character and string utilities shared by the sanitizer, the tokenizer
//! and the persistence layer: character classes, whitespace word splitting,
//! joining, substring occurrence and decimal rendering.

use vstd::prelude::*;

verus! {

use vstd::string::StrSliceExecFns;

/// Whitespace for fingerprint normalisation and tokenisation.
pub open spec fn is_wsp(c: char) -> bool {
    c == ' ' || c == '\t' || c == '\n' || c == '\r'
}

/// Executable whitespace test.
pub fn is_wsp_char(c: char) -> (r: bool)
    ensures
        r == is_wsp(c),
{
    c == ' ' || c == '\t' || c == '\n' || c == '\r'
}

pub open spec fn is_digit(c: char) -> bool {
    '0' <= c && c <= '9'
}

pub fn is_digit_char(c: char) -> (r: bool)
    ensures
        r == is_digit(c),
{
    '0' <= c && c <= '9'
}

pub open spec fn is_lower(c: char) -> bool {
    'a' <= c && c <= 'z'
}

pub fn is_lower_char(c: char) -> (r: bool)
    ensures
        r == is_lower(c),
{
    'a' <= c && c <= 'z'
}

pub open spec fn is_upper(c: char) -> bool {
    'A' <= c && c <= 'Z'
}

pub fn is_upper_char(c: char) -> (r: bool)
    ensures
        r == is_upper(c),
{
    'A' <= c && c <= 'Z'
}

pub open spec fn is_alnum(c: char) -> bool {
    is_digit(c) || is_lower(c) || is_upper(c)
}

pub fn is_alnum_char(c: char) -> (r: bool)
    ensures
        r == is_alnum(c),
{
    is_digit_char(c) || is_lower_char(c) || is_upper_char(c)
}

/// The first index at or after `i` that ends the non-whitespace run
/// starting at `i`.
pub open spec fn word_end(s: Seq<char>, i: int) -> int
    decreases s.len() - i,
{
    if i < 0 || i >= s.len() || is_wsp(s[i]) {
        i
    } else {
        word_end(s, i + 1)
    }
}

/// `word_end` stays within bounds and the run it delimits is free of
/// whitespace and maximal.
pub proof fn lemma_word_end(s: Seq<char>, i: int)
    requires
        0 <= i <= s.len(),
    ensures
        i <= word_end(s, i) <= s.len(),
        forall|j: int| i <= j < word_end(s, i) ==> !is_wsp(s[j]),
        word_end(s, i) == s.len() || is_wsp(s[word_end(s, i)]),
    decreases s.len() - i,
{
    if i < s.len() && !is_wsp(s[i]) {
        lemma_word_end(s, i + 1);
    }
}

/// The whitespace-separated words of `s`, from index `i` on.
pub open spec fn words_from(s: Seq<char>, i: int) -> Seq<Seq<char>>
    decreases s.len() - i
        when 0 <= i <= s.len()
        via words_from_decreases
{
    if i >= s.len() {
        Seq::empty()
    } else if is_wsp(s[i]) {
        words_from(s, i + 1)
    } else {
        seq![s.subrange(i, word_end(s, i))] + words_from(s, word_end(s, i))
    }
}

#[via_fn]
proof fn words_from_decreases(s: Seq<char>, i: int) {
    if 0 <= i < s.len() && !is_wsp(s[i]) {
        lemma_word_end(s, i);
        assert(word_end(s, i) >= i + 1) by {
            assert(word_end(s, i) == word_end(s, i + 1));
            lemma_word_end(s, i + 1);
        }
    }
}

/// The words of a whole string.
pub open spec fn words_of(s: Seq<char>) -> Seq<Seq<char>> {
    words_from(s, 0)
}

/// A word is non-empty and free of whitespace.
pub open spec fn clean_word(w: Seq<char>) -> bool {
    w.len() > 0 && forall|j: int| 0 <= j < w.len() ==> !is_wsp(w[j])
}

/// Every word that `words_from` yields is clean.
pub proof fn lemma_words_clean(s: Seq<char>, i: int)
    requires
        0 <= i <= s.len(),
    ensures
        forall|k: int|
            0 <= k < words_from(s, i).len() ==> #[trigger] clean_word(words_from(s, i)[k]),
    decreases s.len() - i,
{
    if i >= s.len() {
    } else if is_wsp(s[i]) {
        lemma_words_clean(s, i + 1);
        assert(words_from(s, i) == words_from(s, i + 1));
        assert forall|k: int|
            0 <= k < words_from(s, i).len() implies #[trigger] clean_word(
            words_from(s, i)[k],
        ) by {
            assert(clean_word(words_from(s, i + 1)[k]));
        }
    } else {
        lemma_word_end(s, i);
        let e = word_end(s, i);
        assert(e > i) by {
            assert(word_end(s, i) == word_end(s, i + 1));
            lemma_word_end(s, i + 1);
        }
        lemma_words_clean(s, e);
        let w = s.subrange(i, e);
        assert(clean_word(w));
        assert(words_from(s, i) == seq![w] + words_from(s, e));
        assert forall|k: int|
            0 <= k < words_from(s, i).len() implies #[trigger] clean_word(
            words_from(s, i)[k],
        ) by {
            if k == 0 {
                assert(words_from(s, i)[0] == w);
            } else {
                assert(words_from(s, i)[k] == words_from(s, e)[k - 1]);
                assert(clean_word(words_from(s, e)[k - 1]));
            }
        }
    }
}

/// Words joined by single spaces.
pub open spec fn join_words(ws: Seq<Seq<char>>) -> Seq<char>
    decreases ws.len(),
{
    if ws.len() == 0 {
        Seq::empty()
    } else if ws.len() == 1 {
        ws[0]
    } else {
        ws[0] + seq![' '] + join_words(ws.drop_first())
    }
}

/// `word_end` looks only at the suffix: appending a prefix shifts it.
pub proof fn lemma_word_end_offset(u: Seq<char>, v: Seq<char>, i: int)
    requires
        0 <= i <= v.len(),
    ensures
        word_end(u + v, u.len() + i) == u.len() + word_end(v, i),
    decreases v.len() - i,
{
    let s = u + v;
    if i < v.len() && !is_wsp(v[i]) {
        assert(s[u.len() + i] == v[i]);
        lemma_word_end_offset(u, v, i + 1);
    } else {
        if i < v.len() {
            assert(s[u.len() + i] == v[i]);
        }
    }
}

/// `words_from` looks only at the suffix: appending a prefix shifts it.
pub proof fn lemma_words_from_offset(u: Seq<char>, v: Seq<char>, i: int)
    requires
        0 <= i <= v.len(),
    ensures
        words_from(u + v, u.len() + i) == words_from(v, i),
    decreases v.len() - i,
{
    let s = u + v;
    if i >= v.len() {
    } else if is_wsp(v[i]) {
        assert(s[u.len() + i] == v[i]);
        lemma_words_from_offset(u, v, i + 1);
    } else {
        assert(s[u.len() + i] == v[i]);
        lemma_word_end(v, i);
        lemma_word_end_offset(u, v, i);
        let e = word_end(v, i);
        assert(e > i) by {
            assert(word_end(v, i) == word_end(v, i + 1));
            lemma_word_end(v, i + 1);
        }
        lemma_words_from_offset(u, v, e);
        assert(s.subrange(u.len() + i, u.len() + e) =~= v.subrange(i, e));
    }
}

/// In a string that starts with a clean word followed by whitespace or the
/// end, the first word run ends exactly where the word does.
pub proof fn lemma_word_end_of_prefix(w: Seq<char>, t: Seq<char>, i: int)
    requires
        clean_word(w),
        0 <= i <= w.len(),
        t.len() == 0 || is_wsp(t[0]),
    ensures
        word_end(w + t, i) == w.len(),
    decreases w.len() - i,
{
    let s = w + t;
    if i < w.len() {
        assert(s[i] == w[i]);
        assert(!is_wsp(s[i]));
        lemma_word_end_of_prefix(w, t, i + 1);
    } else {
        if t.len() > 0 {
            assert(s[i] == t[0]);
        }
    }
}

/// Splitting the join of clean words gives the words back.
pub proof fn lemma_words_of_join(ws: Seq<Seq<char>>)
    requires
        forall|k: int| 0 <= k < ws.len() ==> #[trigger] clean_word(ws[k]),
    ensures
        words_of(join_words(ws)) == ws,
    decreases ws.len(),
{
    if ws.len() == 0 {
        assert(words_of(join_words(ws)) =~= ws);
    } else if ws.len() == 1 {
        let w = ws[0];
        assert(clean_word(w));
        lemma_word_end_of_prefix(w, Seq::empty(), 0);
        assert(w + Seq::<char>::empty() =~= w);
        assert(word_end(w, 0) == w.len());
        assert(!is_wsp(w[0]));
        assert(w.subrange(0, w.len() as int) =~= w);
        assert(words_from(w, 0) == seq![w] + words_from(w, w.len() as int));
        assert(words_from(w, w.len() as int) =~= Seq::<Seq<char>>::empty());
        assert(words_of(join_words(ws)) =~= ws);
    } else {
        let w = ws[0];
        let rest = ws.drop_first();
        let tail = seq![' '] + join_words(rest);
        let s = join_words(ws);
        assert(s == w + tail);
        assert(clean_word(w));
        assert(is_wsp(tail[0]));
        lemma_word_end_of_prefix(w, tail, 0);
        assert(word_end(s, 0) == w.len());
        assert(!is_wsp(s[0])) by { assert(s[0] == w[0]); }
        assert(s.subrange(0, w.len() as int) =~= w);
        assert(words_from(s, 0) == seq![w] + words_from(s, w.len() as int));
        // Step over the separating space, then reduce to the tail.
        assert(s[w.len() as int] == tail[0]);
        assert(words_from(s, w.len() as int) == words_from(s, w.len() as int + 1));
        assert(s =~= (w + seq![' ']) + join_words(rest));
        lemma_words_from_offset(w + seq![' '], join_words(rest), 0);
        assert(words_from(s, w.len() as int + 1) == words_from(join_words(rest), 0));
        lemma_words_of_join(rest);
        assert(words_from(s, 0) =~= ws);
    }
}

/// `needle` occurs in `hay` at offset `d`.
pub open spec fn occurs_at(hay: Seq<char>, needle: Seq<char>, d: int) -> bool {
    0 <= d && d + needle.len() <= hay.len() && forall|j: int|
        0 <= j < needle.len() ==> hay[d + j] == needle[j]
}

/// `needle` occurs somewhere in `hay`.
pub open spec fn contains_seq(hay: Seq<char>, needle: Seq<char>) -> bool {
    exists|d: int| occurs_at(hay, needle, d)
}

/// A whitespace-free needle that occurs in a join of clean words occurs
/// inside one of the words.
pub proof fn lemma_occurrence_in_join(ws: Seq<Seq<char>>, needle: Seq<char>, d: int)
    requires
        forall|k: int| 0 <= k < ws.len() ==> #[trigger] clean_word(ws[k]),
        clean_word(needle),
        occurs_at(join_words(ws), needle, d),
    ensures
        exists|k: int, e: int|
            0 <= k < ws.len() && #[trigger] occurs_at(ws[k], needle, e),
    decreases ws.len(),
{
    let s = join_words(ws);
    if ws.len() == 0 {
        assert(needle.len() == 0);
        assert(false);
    } else if ws.len() == 1 {
        assert(occurs_at(ws[0], needle, d));
    } else {
        let w = ws[0];
        let rest = ws.drop_first();
        let tail = join_words(rest);
        assert(s == w + seq![' '] + tail);
        if d + needle.len() <= w.len() {
            assert(forall|j: int| 0 <= j < needle.len() ==> s[d + j] == #[trigger] w[d + j]);
            assert(occurs_at(w, needle, d));
        } else if d <= w.len() {
            // The occurrence would cover the separating space.
            let sp = w.len() - d;
            assert(0 <= sp < needle.len());
            assert(s[w.len() as int] == ' ');
            assert(needle[sp] == s[d + sp]);
            assert(is_wsp(needle[sp]));
            assert(false);
        } else {
            let d2 = d - w.len() - 1;
            assert(0 <= d2);
            assert(d2 + needle.len() <= tail.len());
            assert(forall|j: int| 0 <= j < needle.len() ==> s[d + j] == #[trigger] tail[d2 + j]);
            assert(occurs_at(tail, needle, d2));
            lemma_occurrence_in_join(rest, needle, d2);
            let (k, e) = choose|k: int, e: int|
                0 <= k < rest.len() && #[trigger] occurs_at(rest[k], needle, e);
            assert(ws[k + 1] == rest[k]);
            assert(occurs_at(ws[k + 1], needle, e));
        }
    }
}

/// The decimal digits of `n`, most significant first.
pub open spec fn dec_digits(n: nat) -> Seq<char>
    decreases n,
{
    if n < 10 {
        seq![digit_char(n)]
    } else {
        dec_digits(n / 10) + seq![digit_char(n % 10)]
    }
}

/// The character for one decimal digit.
pub open spec fn digit_char(d: nat) -> char {
    if d == 0 {
        '0'
    } else if d == 1 {
        '1'
    } else if d == 2 {
        '2'
    } else if d == 3 {
        '3'
    } else if d == 4 {
        '4'
    } else if d == 5 {
        '5'
    } else if d == 6 {
        '6'
    } else if d == 7 {
        '7'
    } else if d == 8 {
        '8'
    } else {
        '9'
    }
}

/// Render `n` in decimal, most significant digit first.
pub fn u64_digits(n: u64) -> (r: Vec<char>)
    ensures
        r@ == dec_digits(n as nat),
    decreases n,
{
    if n < 10 {
        let d = digit_char_exec((n % 10) as u8);
        let mut v: Vec<char> = Vec::new();
        v.push(d);
        assert(v@ =~= dec_digits(n as nat));
        v
    } else {
        let mut v = u64_digits(n / 10);
        let d = digit_char_exec((n % 10) as u8);
        v.push(d);
        assert(v@ =~= dec_digits(n as nat));
        v
    }
}

/// Executable digit character.
pub fn digit_char_exec(d: u8) -> (c: char)
    requires
        d < 10,
    ensures
        c == digit_char(d as nat),
{
    if d == 0 {
        '0'
    } else if d == 1 {
        '1'
    } else if d == 2 {
        '2'
    } else if d == 3 {
        '3'
    } else if d == 4 {
        '4'
    } else if d == 5 {
        '5'
    } else if d == 6 {
        '6'
    } else if d == 7 {
        '7'
    } else if d == 8 {
        '8'
    } else {
        '9'
    }
}

/// The characters of `s`, as a vector.
pub fn str_to_chars(s: &str) -> (v: Vec<char>)
    ensures
        v@ == s@,
{
    let n = s.unicode_len();
    let mut v: Vec<char> = Vec::new();
    let mut i: usize = 0;
    while i < n
        invariant
            n == s@.len(),
            0 <= i <= n,
            v@ == s@.subrange(0, i as int),
        decreases n - i,
    {
        let c = s.get_char(i);
        v.push(c);
        assert(v@ =~= s@.subrange(0, i + 1));
        i = i + 1;
    }
    assert(v@ =~= s@);
    v
}

/// Collect a character vector into a `String`.
///
/// Relies on `core::iter::Iterator::collect` for `String` from characters:
/// the collected string holds exactly the characters of the vector, in order.
#[verifier::external_body]
pub fn chars_to_string(v: &Vec<char>) -> (s: String)
    ensures
        s@ == v@,
{
    v.iter().collect()
}

/// Append `v`'s characters to a character vector.
pub fn push_all(out: &mut Vec<char>, v: &Vec<char>)
    ensures
        final(out)@ == old(out)@ + v@,
{
    let mut j: usize = 0;
    while j < v.len()
        invariant
            0 <= j <= v@.len(),
            out@ == old(out)@ + v@.subrange(0, j as int),
        decreases v@.len() - j,
    {
        out.push(v[j]);
        assert(out@ =~= old(out)@ + v@.subrange(0, j + 1));
        j = j + 1;
    }
    assert(out@ =~= old(out)@ + v@);
}

/// Append a string slice's characters to a character vector.
pub fn push_str_chars(out: &mut Vec<char>, s: &str)
    ensures
        final(out)@ == old(out)@ + s@,
{
    let v = str_to_chars(s);
    push_all(out, &v);
}

/// Whether two string slices read the same.
pub fn str_eq(a: &str, b: &str) -> (r: bool)
    ensures
        r == (a@ == b@),
{
    let av = chars_to_string(&str_to_chars(a));
    let bv = chars_to_string(&str_to_chars(b));
    av == bv
}

} // verus!
