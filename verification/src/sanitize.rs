//! The sanitization pipeline: turns an arbitrary tool-input payload into a
//! stable fingerprint with secrets and volatile fields redacted and
//! whitespace normalised.
//!
//! The fingerprint is the input's whitespace-separated words joined by
//! single spaces, with every word that shows a recognised secret or
//! volatile pattern replaced by the sentinel `<REDACTED>`.

use vstd::prelude::*;
use crate::text::{
    clean_word, contains_seq, is_alnum, is_alnum_char, is_digit, is_digit_char, is_lower,
    is_lower_char, is_upper, is_upper_char, is_wsp, is_wsp_char, join_words, occurs_at,
    str_to_chars, chars_to_string, lemma_words_clean, lemma_words_of_join,
    lemma_occurrence_in_join, words_of, words_from,
};

verus! {

/// The redaction sentinel, as a character sequence.
pub open spec fn redacted() -> Seq<char> {
    seq!['<', 'R', 'E', 'D', 'A', 'C', 'T', 'E', 'D', '>']
}

/// Characters that may appear in a provider API key body.
pub open spec fn is_key_char(c: char) -> bool {
    is_alnum(c) || c == '_' || c == '-'
}

/// Characters of the base64 alphabet, padding included.
pub open spec fn is_b64_char(c: char) -> bool {
    is_alnum(c) || c == '+' || c == '/' || c == '='
}

/// Characters of the url-safe base64 alphabet, padding included.
pub open spec fn is_b64url_char(c: char) -> bool {
    is_alnum(c) || c == '-' || c == '_' || c == '='
}

/// A GitHub-style token: `ghp_` followed by at least eight key characters.
pub open spec fn github_key_at(s: Seq<char>, i: int) -> bool {
    &&& 0 <= i
    &&& i + 12 <= s.len()
    &&& s[i] == 'g'
    &&& s[i + 1] == 'h'
    &&& s[i + 2] == 'p'
    &&& s[i + 3] == '_'
    &&& forall|j: int| 0 <= j < 8 ==> is_key_char(#[trigger] s[i + 4 + j])
}

/// An `sk-` provider key: `sk-` followed by at least sixteen key characters.
pub open spec fn provider_key_at(s: Seq<char>, i: int) -> bool {
    &&& 0 <= i
    &&& i + 19 <= s.len()
    &&& s[i] == 's'
    &&& s[i + 1] == 'k'
    &&& s[i + 2] == '-'
    &&& forall|j: int| 0 <= j < 16 ==> is_key_char(#[trigger] s[i + 3 + j])
}

/// An AWS access key id: `AKIA` followed by at least twelve upper-case
/// letters or digits.
pub open spec fn aws_key_at(s: Seq<char>, i: int) -> bool {
    &&& 0 <= i
    &&& i + 16 <= s.len()
    &&& s[i] == 'A'
    &&& s[i + 1] == 'K'
    &&& s[i + 2] == 'I'
    &&& s[i + 3] == 'A'
    &&& forall|j: int|
        0 <= j < 12 ==> is_upper(#[trigger] s[i + 4 + j]) || is_digit(s[i + 4 + j])
}

/// The dot that separates a JWT header from a JWT-shaped payload.
pub open spec fn jwt_dot_at(s: Seq<char>, i: int, k: int) -> bool {
    &&& i + 3 <= k
    &&& k + 4 <= s.len()
    &&& s[k] == '.'
    &&& s[k + 1] == 'e'
    &&& s[k + 2] == 'y'
    &&& s[k + 3] == 'J'
    &&& forall|j: int| i + 3 <= j < k ==> is_b64url_char(#[trigger] s[j])
}

/// A JWT-shaped pair: `eyJ`, a url-safe base64 run, a dot, `eyJ` again.
pub open spec fn jwt_at(s: Seq<char>, i: int) -> bool {
    &&& 0 <= i
    &&& i + 3 <= s.len()
    &&& s[i] == 'e'
    &&& s[i + 1] == 'y'
    &&& s[i + 2] == 'J'
    &&& exists|k: int| jwt_dot_at(s, i, k)
}

/// A high-entropy base64 run: thirty-two consecutive base64 characters
/// among which a digit, a lower-case and an upper-case letter all occur.
pub open spec fn base64_run_at(s: Seq<char>, i: int) -> bool {
    &&& 0 <= i
    &&& i + 32 <= s.len()
    &&& forall|j: int| 0 <= j < 32 ==> is_b64_char(#[trigger] s[i + j])
    &&& exists|j: int| 0 <= j < 32 && is_digit(#[trigger] s[i + j])
    &&& exists|j: int| 0 <= j < 32 && is_lower(#[trigger] s[i + j])
    &&& exists|j: int| 0 <= j < 32 && is_upper(#[trigger] s[i + j])
}

/// A volatile number: ten consecutive digits, as in epoch timestamps and
/// process ids.
pub open spec fn digit_run_at(s: Seq<char>, i: int) -> bool {
    &&& 0 <= i
    &&& i + 10 <= s.len()
    &&& forall|j: int| 0 <= j < 10 ==> is_digit(#[trigger] s[i + j])
}

/// Some recognised secret or volatile pattern starts at `i`.
pub open spec fn secret_at(s: Seq<char>, i: int) -> bool {
    ||| github_key_at(s, i)
    ||| provider_key_at(s, i)
    ||| aws_key_at(s, i)
    ||| jwt_at(s, i)
    ||| base64_run_at(s, i)
    ||| digit_run_at(s, i)
}

/// `s` shows a recognised secret or volatile pattern somewhere.
pub open spec fn is_secret(s: Seq<char>) -> bool {
    exists|i: int| secret_at(s, i)
}

/// A word after redaction: the sentinel when the word shows a pattern,
/// the word itself otherwise.
pub open spec fn map_word(w: Seq<char>) -> Seq<char> {
    if is_secret(w) {
        redacted()
    } else {
        w
    }
}

/// The words of `s` after per-word redaction.
pub open spec fn mapped_words(s: Seq<char>) -> Seq<Seq<char>> {
    words_of(s).map_values(|w: Seq<char>| map_word(w))
}

/// The sanitized fingerprint of `s`.
pub open spec fn sanitize_spec(s: Seq<char>) -> Seq<char> {
    join_words(mapped_words(s))
}

/// Every pattern needs at least three characters of room.
proof fn lemma_secret_at_bounds(s: Seq<char>, i: int)
    requires
        secret_at(s, i),
    ensures
        0 <= i < s.len(),
{
}

/// The sentinel itself shows no pattern, so redaction is stable.
pub proof fn lemma_redacted_not_secret()
    ensures
        !is_secret(redacted()),
{
    let w = redacted();
    assert(w.len() == 10);
    assert forall|i: int| !secret_at(w, i) by {
        if 0 <= i < 10 {
            assert(w[0] == '<' && w[1] == 'R' && w[2] == 'E' && w[3] == 'D' && w[4] == 'A'
                && w[5] == 'C' && w[6] == 'T' && w[7] == 'E' && w[8] == 'D' && w[9] == '>');
            if github_key_at(w, i) {
                assert(i + 12 <= 10);
                assert(false);
            }
            if provider_key_at(w, i) {
                assert(false);
            }
            if aws_key_at(w, i) {
                assert(false);
            }
            if jwt_at(w, i) {
                assert(w[i] == 'e');
                assert(false);
            }
            if base64_run_at(w, i) {
                assert(false);
            }
            if digit_run_at(w, i) {
                assert(i == 0);
                assert(is_digit(w[0]));
                assert(false);
            }
        }
    }
}

/// The sentinel is a clean word.
pub proof fn lemma_redacted_clean()
    ensures
        clean_word(redacted()),
{
    let w = redacted();
    assert(w.len() == 10);
    assert forall|j: int| 0 <= j < w.len() implies !is_wsp(w[j]) by {
        assert(w[0] == '<' && w[1] == 'R' && w[2] == 'E' && w[3] == 'D' && w[4] == 'A'
            && w[5] == 'C' && w[6] == 'T' && w[7] == 'E' && w[8] == 'D' && w[9] == '>');
    }
}

/// A pattern seen in a part is seen in the whole.
pub proof fn lemma_secret_monotone(w: Seq<char>, t: Seq<char>, d: int)
    requires
        is_secret(t),
        occurs_at(w, t, d),
    ensures
        is_secret(w),
{
    let i = choose|i: int| secret_at(t, i);
    lemma_secret_at_bounds(t, i);
    assert(forall|j: int| 0 <= j < t.len() ==> #[trigger] w[d + j] == t[j]);
    if github_key_at(t, i) {
        assert forall|j: int| 0 <= j < 8 implies is_key_char(#[trigger] w[d + i + 4 + j]) by {
            assert(w[d + (i + 4 + j)] == t[i + 4 + j]);
        }
        assert(w[d + i] == t[i]);
        assert(w[d + i + 1] == t[i + 1]);
        assert(w[d + i + 2] == t[i + 2]);
        assert(w[d + i + 3] == t[i + 3]);
        assert(github_key_at(w, d + i));
        assert(secret_at(w, d + i));
    } else if provider_key_at(t, i) {
        assert forall|j: int| 0 <= j < 16 implies is_key_char(#[trigger] w[d + i + 3 + j]) by {
            assert(w[d + (i + 3 + j)] == t[i + 3 + j]);
        }
        assert(w[d + i] == t[i]);
        assert(w[d + i + 1] == t[i + 1]);
        assert(w[d + i + 2] == t[i + 2]);
        assert(provider_key_at(w, d + i));
        assert(secret_at(w, d + i));
    } else if aws_key_at(t, i) {
        assert forall|j: int|
            0 <= j < 12 implies is_upper(#[trigger] w[d + i + 4 + j]) || is_digit(
            w[d + i + 4 + j],
        ) by {
            assert(w[d + (i + 4 + j)] == t[i + 4 + j]);
        }
        assert(w[d + i] == t[i]);
        assert(w[d + i + 1] == t[i + 1]);
        assert(w[d + i + 2] == t[i + 2]);
        assert(w[d + i + 3] == t[i + 3]);
        assert(aws_key_at(w, d + i));
        assert(secret_at(w, d + i));
    } else if jwt_at(t, i) {
        let k = choose|k: int| jwt_dot_at(t, i, k);
        assert forall|j: int| d + i + 3 <= j < d + k implies is_b64url_char(#[trigger] w[j]) by {
            assert(w[d + (j - d)] == t[j - d]);
        }
        assert(w[d + i] == t[i]);
        assert(w[d + i + 1] == t[i + 1]);
        assert(w[d + i + 2] == t[i + 2]);
        assert(w[d + k] == t[k]);
        assert(w[d + k + 1] == t[k + 1]);
        assert(w[d + k + 2] == t[k + 2]);
        assert(w[d + k + 3] == t[k + 3]);
        assert(jwt_dot_at(w, d + i, d + k));
        assert(jwt_at(w, d + i));
        assert(secret_at(w, d + i));
    } else if base64_run_at(t, i) {
        assert forall|j: int| 0 <= j < 32 implies is_b64_char(#[trigger] w[d + i + j]) by {
            assert(w[d + (i + j)] == t[i + j]);
        }
        let jd = choose|j: int| 0 <= j < 32 && is_digit(#[trigger] t[i + j]);
        let jl = choose|j: int| 0 <= j < 32 && is_lower(#[trigger] t[i + j]);
        let ju = choose|j: int| 0 <= j < 32 && is_upper(#[trigger] t[i + j]);
        assert(w[d + i + jd] == t[i + jd]);
        assert(w[d + i + jl] == t[i + jl]);
        assert(w[d + i + ju] == t[i + ju]);
        assert(is_digit(w[d + i + jd]));
        assert(is_lower(w[d + i + jl]));
        assert(is_upper(w[d + i + ju]));
        assert(base64_run_at(w, d + i));
        assert(secret_at(w, d + i));
    } else {
        assert(digit_run_at(t, i));
        assert forall|j: int| 0 <= j < 10 implies is_digit(#[trigger] w[d + i + j]) by {
            assert(w[d + (i + j)] == t[i + j]);
        }
        assert(digit_run_at(w, d + i));
        assert(secret_at(w, d + i));
    }
}

/// The words of a sanitized string are clean.
proof fn lemma_mapped_words_clean(s: Seq<char>)
    ensures
        forall|k: int|
            0 <= k < mapped_words(s).len() ==> #[trigger] clean_word(mapped_words(s)[k]),
{
    let ws = words_of(s);
    let mws = mapped_words(s);
    lemma_words_clean(s, 0);
    lemma_redacted_clean();
    assert forall|k: int| 0 <= k < mws.len() implies #[trigger] clean_word(mws[k]) by {
        assert(mws[k] == map_word(ws[k]));
        assert(clean_word(ws[k]));
    }
}

/// Sanitization is idempotent: a fingerprint sanitizes to itself.
pub proof fn lemma_sanitize_idempotent(s: Seq<char>)
    ensures
        sanitize_spec(sanitize_spec(s)) == sanitize_spec(s),
{
    let ws = words_of(s);
    let mws = mapped_words(s);
    lemma_mapped_words_clean(s);
    lemma_words_of_join(mws);
    assert(words_of(sanitize_spec(s)) == mws);
    lemma_words_clean(s, 0);
    lemma_redacted_not_secret();
    assert(mapped_words(sanitize_spec(s)) =~= mws) by {
        assert forall|k: int|
            0 <= k < mws.len() implies #[trigger] mapped_words(sanitize_spec(s))[k]
            == mws[k] by {
            assert(mws[k] == map_word(ws[k]));
            if is_secret(ws[k]) {
                assert(mws[k] == redacted());
                assert(map_word(mws[k]) == redacted());
            } else {
                assert(map_word(mws[k]) == mws[k]);
            }
        }
    }
}

/// No whitespace-free token that shows a recognised pattern survives
/// sanitization, neither redacted words nor any other part of the output.
pub proof fn lemma_sanitize_excludes_secret(s: Seq<char>, t: Seq<char>)
    requires
        is_secret(t),
        clean_word(t),
    ensures
        !contains_seq(sanitize_spec(s), t),
{
    if contains_seq(sanitize_spec(s), t) {
        let d = choose|d: int| occurs_at(sanitize_spec(s), t, d);
        let ws = words_of(s);
        let mws = mapped_words(s);
        lemma_mapped_words_clean(s);
        lemma_occurrence_in_join(mws, t, d);
        let (k, e) = choose|k: int, e: int|
            0 <= k < mws.len() && #[trigger] occurs_at(mws[k], t, e);
        assert(mws[k] == map_word(ws[k]));
        lemma_words_clean(s, 0);
        if is_secret(ws[k]) {
            assert(mws[k] == redacted());
            lemma_secret_monotone(redacted(), t, e);
            lemma_redacted_not_secret();
            assert(false);
        } else {
            lemma_secret_monotone(ws[k], t, e);
            assert(false);
        }
    }
}

/// Executable key-character test.
fn is_key_char_exec(c: char) -> (r: bool)
    ensures
        r == is_key_char(c),
{
    is_alnum_char(c) || c == '_' || c == '-'
}

/// Executable base64-character test.
fn is_b64_char_exec(c: char) -> (r: bool)
    ensures
        r == is_b64_char(c),
{
    is_alnum_char(c) || c == '+' || c == '/' || c == '='
}

/// Executable url-safe base64-character test.
fn is_b64url_char_exec(c: char) -> (r: bool)
    ensures
        r == is_b64url_char(c),
{
    is_alnum_char(c) || c == '-' || c == '_' || c == '='
}

/// Whether `count` key characters start at `start`.
fn key_run(v: &Vec<char>, start: usize, count: usize) -> (r: bool)
    requires
        start + count <= v@.len(),
    ensures
        r == forall|j: int| 0 <= j < count ==> is_key_char(#[trigger] v@[start + j]),
{
    let n = v.len();
    assert(start + count <= n);
    let mut j: usize = 0;
    while j < count
        invariant
            0 <= j <= count,
            start + count <= v@.len(),
            v@.len() <= usize::MAX,
            forall|jj: int| 0 <= jj < j ==> is_key_char(#[trigger] v@[start + jj]),
        decreases count - j,
    {
        if !is_key_char_exec(v[start + j]) {
            assert(!is_key_char(v@[start + j as int]));
            return false;
        }
        j = j + 1;
    }
    true
}

/// Whether `count` upper-case letters or digits start at `start`.
fn upper_digit_run(v: &Vec<char>, start: usize, count: usize) -> (r: bool)
    requires
        start + count <= v@.len(),
    ensures
        r == forall|j: int|
            0 <= j < count ==> is_upper(#[trigger] v@[start + j]) || is_digit(v@[start + j]),
{
    let n = v.len();
    assert(start + count <= n);
    let mut j: usize = 0;
    while j < count
        invariant
            0 <= j <= count,
            start + count <= v@.len(),
            v@.len() <= usize::MAX,
            forall|jj: int|
                0 <= jj < j ==> is_upper(#[trigger] v@[start + jj]) || is_digit(v@[start + jj]),
        decreases count - j,
    {
        let c = v[start + j];
        if !(is_upper_char(c) || is_digit_char(c)) {
            assert(!(is_upper(v@[start + j as int]) || is_digit(v@[start + j as int])));
            return false;
        }
        j = j + 1;
    }
    true
}

/// Whether `count` digits start at `start`.
fn digit_run(v: &Vec<char>, start: usize, count: usize) -> (r: bool)
    requires
        start + count <= v@.len(),
    ensures
        r == forall|j: int| 0 <= j < count ==> is_digit(#[trigger] v@[start + j]),
{
    let n = v.len();
    assert(start + count <= n);
    let mut j: usize = 0;
    while j < count
        invariant
            0 <= j <= count,
            start + count <= v@.len(),
            v@.len() <= usize::MAX,
            forall|jj: int| 0 <= jj < j ==> is_digit(#[trigger] v@[start + jj]),
        decreases count - j,
    {
        if !is_digit_char(v[start + j]) {
            assert(!is_digit(v@[start + j as int]));
            return false;
        }
        j = j + 1;
    }
    true
}

/// Whether a GitHub-style token starts at `i`.
fn github_at_exec(v: &Vec<char>, i: usize) -> (r: bool)
    requires
        i < v@.len(),
    ensures
        r == github_key_at(v@, i as int),
{
    if v.len() < 12 || i > v.len() - 12 {
        return false;
    }
    if v[i] == 'g' && v[i + 1] == 'h' && v[i + 2] == 'p' && v[i + 3] == '_' {
        key_run(v, i + 4, 8)
    } else {
        false
    }
}

/// Whether an `sk-` provider key starts at `i`.
fn provider_at_exec(v: &Vec<char>, i: usize) -> (r: bool)
    requires
        i < v@.len(),
    ensures
        r == provider_key_at(v@, i as int),
{
    if v.len() < 19 || i > v.len() - 19 {
        return false;
    }
    if v[i] == 's' && v[i + 1] == 'k' && v[i + 2] == '-' {
        key_run(v, i + 3, 16)
    } else {
        false
    }
}

/// Whether an AWS access key id starts at `i`.
fn aws_at_exec(v: &Vec<char>, i: usize) -> (r: bool)
    requires
        i < v@.len(),
    ensures
        r == aws_key_at(v@, i as int),
{
    if v.len() < 16 || i > v.len() - 16 {
        return false;
    }
    if v[i] == 'A' && v[i + 1] == 'K' && v[i + 2] == 'I' && v[i + 3] == 'A' {
        upper_digit_run(v, i + 4, 12)
    } else {
        false
    }
}

/// Whether a JWT-shaped pair starts at `i`.
fn jwt_at_exec(v: &Vec<char>, i: usize) -> (r: bool)
    requires
        i < v@.len(),
    ensures
        r == jwt_at(v@, i as int),
{
    if v.len() < 3 || i > v.len() - 3 {
        return false;
    }
    if !(v[i] == 'e' && v[i + 1] == 'y' && v[i + 2] == 'J') {
        return false;
    }
    // Scan the url-safe base64 run that follows the header.
    let mut k: usize = i + 3;
    while k < v.len() && is_b64url_char_exec(v[k])
        invariant
            i + 3 <= k <= v@.len(),
            forall|j: int| i + 3 <= j < k ==> is_b64url_char(#[trigger] v@[j]),
        decreases v@.len() - k,
    {
        k = k + 1;
    }
    // The run ends here; a match needs a dot and a second header now.
    if v.len() >= 4 && k <= v.len() - 4 && v[k] == '.' && v[k + 1] == 'e' && v[k + 2] == 'y'
        && v[k + 3] == 'J' {
        assert(jwt_dot_at(v@, i as int, k as int));
        true
    } else {
        proof {
            if jwt_at(v@, i as int) {
                let kk = choose|kk: int| jwt_dot_at(v@, i as int, kk);
                if kk < k {
                    assert(is_b64url_char(v@[kk]));
                    assert(false);
                } else if kk > k {
                    assert(k < v@.len());
                    assert(!is_b64url_char(v@[k as int]));
                    assert(is_b64url_char(v@[k as int]));
                    assert(false);
                } else {
                    assert(false);
                }
            }
        }
        false
    }
}

/// Whether a high-entropy base64 run starts at `i`.
fn base64_at_exec(v: &Vec<char>, i: usize) -> (r: bool)
    requires
        i < v@.len(),
    ensures
        r == base64_run_at(v@, i as int),
{
    if v.len() < 32 || i > v.len() - 32 {
        return false;
    }
    let n = v.len();
    assert(i + 32 <= n);
    let mut j: usize = 0;
    let mut has_digit = false;
    let mut has_lower = false;
    let mut has_upper = false;
    while j < 32
        invariant
            0 <= j <= 32,
            i + 32 <= v@.len(),
            v@.len() <= usize::MAX,
            forall|jj: int| 0 <= jj < j ==> is_b64_char(#[trigger] v@[i + jj]),
            has_digit == exists|jj: int| 0 <= jj < j && is_digit(#[trigger] v@[i + jj]),
            has_lower == exists|jj: int| 0 <= jj < j && is_lower(#[trigger] v@[i + jj]),
            has_upper == exists|jj: int| 0 <= jj < j && is_upper(#[trigger] v@[i + jj]),
        decreases 32 - j,
    {
        let c = v[i + j];
        if !is_b64_char_exec(c) {
            assert(!is_b64_char(v@[i + j as int]));
            return false;
        }
        if is_digit_char(c) {
            has_digit = true;
        }
        if is_lower_char(c) {
            has_lower = true;
        }
        if is_upper_char(c) {
            has_upper = true;
        }
        j = j + 1;
    }
    has_digit && has_lower && has_upper
}

/// Whether a volatile digit run starts at `i`.
fn digits_at_exec(v: &Vec<char>, i: usize) -> (r: bool)
    requires
        i < v@.len(),
    ensures
        r == digit_run_at(v@, i as int),
{
    if v.len() < 10 || i > v.len() - 10 {
        return false;
    }
    digit_run(v, i, 10)
}

/// Whether some recognised pattern starts at `i`.
fn secret_at_exec(v: &Vec<char>, i: usize) -> (r: bool)
    requires
        i < v@.len(),
    ensures
        r == secret_at(v@, i as int),
{
    github_at_exec(v, i) || provider_at_exec(v, i) || aws_at_exec(v, i) || jwt_at_exec(v, i)
        || base64_at_exec(v, i) || digits_at_exec(v, i)
}

/// Whether the word shows some recognised secret or volatile pattern.
pub fn is_secret_chars(v: &Vec<char>) -> (r: bool)
    ensures
        r == is_secret(v@),
{
    let mut i: usize = 0;
    while i < v.len()
        invariant
            0 <= i <= v@.len(),
            forall|ii: int| 0 <= ii < i ==> !#[trigger] secret_at(v@, ii),
        decreases v@.len() - i,
    {
        if secret_at_exec(v, i) {
            return true;
        }
        i = i + 1;
    }
    proof {
        if is_secret(v@) {
            let ii = choose|ii: int| secret_at(v@, ii);
            lemma_secret_at_bounds(v@, ii);
            assert(false);
        }
    }
    false
}

/// The redaction sentinel as a character vector.
fn redacted_chars() -> (v: Vec<char>)
    ensures
        v@ == redacted(),
{
    let mut v: Vec<char> = Vec::new();
    v.push('<');
    v.push('R');
    v.push('E');
    v.push('D');
    v.push('A');
    v.push('C');
    v.push('T');
    v.push('E');
    v.push('D');
    v.push('>');
    assert(v@ =~= redacted());
    v
}

/// Split a character vector into its whitespace-separated words.
pub(crate) fn split_words_exec(v: &Vec<char>) -> (ws: Vec<Vec<char>>)
    ensures
        ws@.map_values(|w: Vec<char>| w@) == words_of(v@),
{
    let ghost s = v@;
    let mut ws: Vec<Vec<char>> = Vec::new();
    let mut i: usize = 0;
    while i < v.len()
        invariant
            v@ == s,
            0 <= i <= s.len(),
            words_from(s, 0) == ws@.map_values(|w: Vec<char>| w@) + words_from(s, i as int),
        decreases s.len() - i,
    {
        if is_wsp_char(v[i]) {
            proof {
                assert(words_from(s, i as int) == words_from(s, i + 1));
            }
            i = i + 1;
        } else {
            let start = i;
            let mut w: Vec<char> = Vec::new();
            while i < v.len() && !is_wsp_char(v[i])
                invariant
                    v@ == s,
                    start <= i <= s.len(),
                    start < s.len(),
                    !crate::text::is_wsp(s[start as int]),
                    w@ == s.subrange(start as int, i as int),
                    crate::text::word_end(s, start as int) == crate::text::word_end(
                        s,
                        i as int,
                    ),
                decreases s.len() - i,
            {
                w.push(v[i]);
                assert(w@ =~= s.subrange(start as int, i + 1));
                i = i + 1;
            }
            proof {
                assert(crate::text::word_end(s, i as int) == i);
                assert(crate::text::word_end(s, start as int) == i);
                assert(words_from(s, start as int) == seq![s.subrange(start as int, i as int)]
                    + words_from(s, i as int));
                assert((ws@.push(w)).map_values(|x: Vec<char>| x@) =~= ws@.map_values(
                    |x: Vec<char>| x@,
                ).push(w@));
            }
            ws.push(w);
        }
    }
    proof {
        assert(words_from(s, i as int) =~= Seq::<Seq<char>>::empty());
        assert(ws@.map_values(|w: Vec<char>| w@) + words_from(s, i as int) =~= ws@.map_values(
            |w: Vec<char>| w@,
        ));
    }
    ws
}

/// Join words with single spaces, starting at word `k`.
fn join_from(ws: &Vec<Vec<char>>, k: usize) -> (out: Vec<char>)
    requires
        k <= ws@.len(),
    ensures
        out@ == join_words(ws@.map_values(|w: Vec<char>| w@).skip(k as int)),
    decreases ws@.len() - k,
{
    let ghost m = ws@.map_values(|w: Vec<char>| w@);
    let n = ws.len();
    if k >= n {
        let out: Vec<char> = Vec::new();
        assert(m.skip(k as int) =~= Seq::<Seq<char>>::empty());
        assert(out@ =~= join_words(m.skip(k as int)));
        out
    } else if k == n - 1 {
        let mut out: Vec<char> = Vec::new();
        crate::text::push_all(&mut out, &ws[k]);
        assert(m.skip(k as int).len() == 1);
        assert(m.skip(k as int)[0] == m[k as int]);
        assert(out@ =~= join_words(m.skip(k as int)));
        out
    } else {
        let mut out: Vec<char> = Vec::new();
        crate::text::push_all(&mut out, &ws[k]);
        out.push(' ');
        let rest = join_from(ws, k + 1);
        crate::text::push_all(&mut out, &rest);
        proof {
            assert(m.skip(k as int).len() >= 2);
            assert(m.skip(k as int)[0] == m[k as int]);
            assert(m.skip(k as int).drop_first() =~= m.skip(k as int + 1));
            assert(out@ =~= m[k as int] + seq![' '] + join_words(m.skip(k as int + 1)));
            assert(out@ =~= join_words(m.skip(k as int)));
        }
        out
    }
}

/// The ordered redaction pipeline. Stateless: the rules are fixed.
pub struct SanitizePipeline {}

impl SanitizePipeline {
    /// The pipeline with the standard rule set.
    pub fn default_pipeline() -> (p: SanitizePipeline) {
        SanitizePipeline {  }
    }

    /// Produce the stable fingerprint of a raw payload: whitespace words
    /// joined by single spaces, secret-bearing words replaced by the
    /// sentinel. Deterministic and idempotent.
    pub fn sanitize(&self, raw: &str) -> (out: String)
        ensures
            out@ == sanitize_spec(raw@),
    {
        sanitize_str(raw)
    }
}

/// Produce the stable fingerprint of a raw payload.
pub fn sanitize_str(raw: &str) -> (out: String)
    ensures
        out@ == sanitize_spec(raw@),
{
    let v = str_to_chars(raw);
    let ws = split_words_exec(&v);
    let ghost wseq = ws@.map_values(|w: Vec<char>| w@);
    let mut mws: Vec<Vec<char>> = Vec::new();
    let mut k: usize = 0;
    while k < ws.len()
        invariant
            0 <= k <= ws@.len(),
            wseq == ws@.map_values(|w: Vec<char>| w@),
            mws@.len() == k,
            forall|t: int| 0 <= t < k ==> #[trigger] mws@[t]@ == map_word(wseq[t]),
        decreases ws@.len() - k,
    {
        if is_secret_chars(&ws[k]) {
            mws.push(redacted_chars());
        } else {
            let mut copy: Vec<char> = Vec::new();
            crate::text::push_all(&mut copy, &ws[k]);
            mws.push(copy);
        }
        k = k + 1;
    }
    let joined = join_from(&mws, 0);
    proof {
        let mseq = mws@.map_values(|w: Vec<char>| w@);
        assert(mseq =~= wseq.map_values(|w: Seq<char>| map_word(w))) by {
            assert forall|t: int| 0 <= t < mseq.len() implies mseq[t] == wseq.map_values(
                |w: Seq<char>| map_word(w),
            )[t] by {
                assert(mseq[t] == mws@[t]@);
            }
        }
        assert(mseq.skip(0) =~= mseq);
        assert(wseq == words_of(v@));
        assert(joined@ == join_words(mapped_words(raw@)));
    }
    chars_to_string(&joined)
}

} // verus!
