//! Tier 0: the deterministic path policy. Extracts the file paths a tool
//! call touches — for shell commands, by parsing the command for
//! write-capable commands and output redirects — rebases them against the
//! working directory, and applies the role's glob policy with
//! most-restrictive-wins combination across paths.

use vstd::prelude::*;
use crate::decision::Decision;
use crate::globs;
use crate::roles::{lex_le, lemma_lex_total, lemma_lex_trans, CompiledPathPolicy};
use crate::text;

verus! {

use vstd::string::StringExecFns;

/// Lexicographic order is antisymmetric.
pub proof fn lemma_lex_antisym(a: Seq<char>, b: Seq<char>)
    requires
        lex_le(a, b),
        lex_le(b, a),
    ensures
        a == b,
    decreases a.len(),
{
    if a.len() == 0 {
        assert(b.len() == 0);
        assert(a =~= b);
    } else {
        assert(b.len() > 0);
        assert(a[0] == b[0]);
        lemma_lex_antisym(a.drop_first(), b.drop_first());
        assert(a.drop_first() == b.drop_first());
        assert(a.len() == b.len());
        assert forall|i: int| 0 <= i < a.len() implies a[i] == b[i] by {
            if i > 0 {
                assert(a.drop_first()[i - 1] == a[i]);
                assert(b.drop_first()[i - 1] == b[i]);
            }
        }
        assert(a =~= b);
    }
}

/// A shell token, as a value: a word's text, a separator, a redirect.
pub enum TokSpec {
    Word(Seq<char>),
    Sep(char),
    Redir,
}

/// A character that ends a bare word.
pub open spec fn bare_stop(c: char) -> bool {
    text::is_wsp(c) || c == ';' || c == '&' || c == '|' || c == '>' || c == '"' || c == '\''
}

/// The first index at or after `j` holding the closing quote, or the
/// length.
pub open spec fn quote_end(cmd: Seq<char>, q: char, j: int) -> int
    decreases cmd.len() - j,
{
    if j < 0 || j >= cmd.len() {
        cmd.len() as int
    } else if cmd[j] == q {
        j
    } else {
        quote_end(cmd, q, j + 1)
    }
}

/// `quote_end` stays within bounds.
proof fn lemma_quote_end(cmd: Seq<char>, q: char, j: int)
    requires
        0 <= j <= cmd.len(),
    ensures
        j <= quote_end(cmd, q, j) <= cmd.len(),
    decreases cmd.len() - j,
{
    if j < cmd.len() && cmd[j] != q {
        lemma_quote_end(cmd, q, j + 1);
    }
}

/// The first index at or after `j` that ends a bare word, or the length.
pub open spec fn bare_end(cmd: Seq<char>, j: int) -> int
    decreases cmd.len() - j,
{
    if j < 0 || j >= cmd.len() {
        cmd.len() as int
    } else if bare_stop(cmd[j]) {
        j
    } else {
        bare_end(cmd, j + 1)
    }
}

/// `bare_end` stays within bounds.
proof fn lemma_bare_end(cmd: Seq<char>, j: int)
    requires
        0 <= j <= cmd.len(),
    ensures
        j <= bare_end(cmd, j) <= cmd.len(),
    decreases cmd.len() - j,
{
    if j < cmd.len() && !bare_stop(cmd[j]) {
        lemma_bare_end(cmd, j + 1);
    }
}

/// The tokens of a shell command from index `i` on: whitespace skipped,
/// `;`/`&`/`|` as separators, `>` and `>>` as redirects, quoted spans as
/// single words without their quotes, and bare words up to the next
/// special character.
pub open spec fn toks(cmd: Seq<char>, i: int) -> Seq<TokSpec>
    decreases cmd.len() - i
        when 0 <= i <= cmd.len()
        via toks_decreases
{
    if i >= cmd.len() {
        Seq::empty()
    } else if text::is_wsp(cmd[i]) {
        toks(cmd, i + 1)
    } else if cmd[i] == ';' || cmd[i] == '&' || cmd[i] == '|' {
        seq![TokSpec::Sep(cmd[i])] + toks(cmd, i + 1)
    } else if cmd[i] == '>' {
        seq![TokSpec::Redir] + toks(
            cmd,
            if i + 1 < cmd.len() && cmd[i + 1] == '>' {
                i + 2
            } else {
                i + 1
            },
        )
    } else if cmd[i] == '"' || cmd[i] == '\'' {
        let j = quote_end(cmd, cmd[i], i + 1);
        (if j > i + 1 {
            seq![TokSpec::Word(cmd.subrange(i + 1, j))]
        } else {
            Seq::empty()
        }) + toks(
            cmd,
            if j < cmd.len() {
                j + 1
            } else {
                j
            },
        )
    } else {
        let e = bare_end(cmd, i);
        seq![TokSpec::Word(cmd.subrange(i, e))] + toks(cmd, e)
    }
}

#[via_fn]
proof fn toks_decreases(cmd: Seq<char>, i: int) {
    if 0 <= i < cmd.len() {
        if cmd[i] == '"' || cmd[i] == '\'' {
            lemma_quote_end(cmd, cmd[i], i + 1);
        } else if !text::is_wsp(cmd[i]) && cmd[i] != ';' && cmd[i] != '&' && cmd[i] != '|'
            && cmd[i] != '>' {
            lemma_bare_end(cmd, i);
            assert(bare_end(cmd, i) == bare_end(cmd, i + 1));
            lemma_bare_end(cmd, i + 1);
        }
    }
}

/// Whether a word is a flag: it starts with a dash.
pub open spec fn flag_spec(w: Seq<char>) -> bool {
    w.len() > 0 && w[0] == '-'
}

/// The next captured path argument: the first non-flag word after
/// skipping `skip` of them, stopping at a separator or redirect; an
/// empty word captures nothing.
pub open spec fn next_arg(ts: Seq<TokSpec>, from: int, skip: int) -> Option<Seq<char>>
    decreases ts.len() - from,
{
    if from < 0 || from >= ts.len() {
        None
    } else {
        match ts[from] {
            TokSpec::Sep(c) => None,
            TokSpec::Redir => None,
            TokSpec::Word(w) => if flag_spec(w) {
                next_arg(ts, from + 1, skip)
            } else if skip > 0 {
                next_arg(ts, from + 1, skip - 1)
            } else if w.len() > 0 {
                Some(w)
            } else {
                None
            },
        }
    }
}

/// A captured option as a path list.
pub open spec fn opt_path(o: Option<Seq<char>>) -> Seq<Seq<char>> {
    match o {
        Some(w) => seq![w],
        None => Seq::empty(),
    }
}

/// Whether an in-place flag appears among the words that follow, before
/// any separator or redirect.
pub open spec fn sed_inplace(ts: Seq<TokSpec>, t: int) -> bool
    decreases ts.len() - t,
{
    if t < 0 || t >= ts.len() {
        false
    } else {
        match ts[t] {
            TokSpec::Word(w) => crate::roles::is_prefix_of(w, "-i"@) || sed_inplace(ts, t + 1),
            _ => false,
        }
    }
}

/// The path captured after `git checkout --`, scanning the words that
/// follow.
pub open spec fn git_cap(ts: Seq<TokSpec>, t: int, saw_checkout: bool) -> Option<Seq<char>>
    decreases ts.len() - t,
{
    if t < 0 || t >= ts.len() {
        None
    } else {
        match ts[t] {
            TokSpec::Word(w) => if w == "checkout"@ {
                git_cap(ts, t + 1, true)
            } else if w == "--"@ && saw_checkout {
                next_arg(ts, t + 1, 0)
            } else {
                git_cap(ts, t + 1, saw_checkout)
            },
            _ => None,
        }
    }
}

/// The path captured after a download output flag, scanning until a
/// separator.
pub open spec fn cw_cap(ts: Seq<TokSpec>, t: int) -> Option<Seq<char>>
    decreases ts.len() - t,
{
    if t < 0 || t >= ts.len() {
        None
    } else {
        match ts[t] {
            TokSpec::Word(w) => if w == "-o"@ || w == "--output"@ || w == "-O"@ || w
                == "--output-document"@ {
                next_arg(ts, t + 1, 0)
            } else {
                cw_cap(ts, t + 1)
            },
            TokSpec::Sep(c) => None,
            TokSpec::Redir => cw_cap(ts, t + 1),
        }
    }
}

/// The target of an `of=` operand, scanning until a separator.
pub open spec fn dd_cap(ts: Seq<TokSpec>, t: int) -> Option<Seq<char>>
    decreases ts.len() - t,
{
    if t < 0 || t >= ts.len() {
        None
    } else {
        match ts[t] {
            TokSpec::Word(w) => if crate::roles::is_prefix_of(w, "of="@) && w.len() > 3 {
                Some(w.subrange(3, w.len() as int))
            } else {
                dd_cap(ts, t + 1)
            },
            TokSpec::Sep(c) => None,
            TokSpec::Redir => dd_cap(ts, t + 1),
        }
    }
}

/// The paths one command word captures when it stands at command
/// position.
pub open spec fn word_caps(ts: Seq<TokSpec>, k: int, w: Seq<char>, after_pipe: bool) -> Seq<
    Seq<char>,
> {
    if w == "rm"@ || w == "mkdir"@ || w == "touch"@ {
        opt_path(next_arg(ts, k + 1, 0))
    } else if w == "mv"@ || w == "cp"@ {
        opt_path(next_arg(ts, k + 1, 0)) + opt_path(next_arg(ts, k + 1, 1))
    } else if w == "chmod"@ || w == "chown"@ {
        opt_path(next_arg(ts, k + 1, 1))
    } else if w == "sed"@ {
        if sed_inplace(ts, k + 1) {
            opt_path(next_arg(ts, k + 1, 1))
        } else {
            Seq::empty()
        }
    } else if w == "tee"@ {
        if after_pipe {
            opt_path(next_arg(ts, k + 1, 0))
        } else {
            Seq::empty()
        }
    } else if w == "git"@ {
        opt_path(git_cap(ts, k + 1, false))
    } else if w == "curl"@ || w == "wget"@ {
        opt_path(cw_cap(ts, k + 1))
    } else if w == "dd"@ {
        opt_path(dd_cap(ts, k + 1))
    } else {
        Seq::empty()
    }
}

/// The write-target candidates of a token sequence: the command battery
/// applied at every command position, plus every redirect target.
pub open spec fn collect_spec(
    ts: Seq<TokSpec>,
    k: int,
    at_start: bool,
    after_pipe: bool,
) -> Seq<Seq<char>>
    decreases ts.len() - k,
{
    if k < 0 || k >= ts.len() {
        Seq::empty()
    } else {
        match ts[k] {
            TokSpec::Sep(c) => collect_spec(ts, k + 1, true, c == '|'),
            TokSpec::Redir => opt_path(next_arg(ts, k + 1, 0)) + collect_spec(
                ts,
                k + 1,
                false,
                after_pipe,
            ),
            TokSpec::Word(w) => (if at_start {
                word_caps(ts, k, w, after_pipe)
            } else {
                Seq::empty()
            }) + collect_spec(ts, k + 1, false, after_pipe),
        }
    }
}

/// The candidate write targets of a whole command.
pub open spec fn bash_candidates(cmd: Seq<char>) -> Seq<Seq<char>> {
    collect_spec(toks(cmd, 0), 0, true, false)
}

/// The candidates that survive the `/dev/null` filter.
pub open spec fn bash_kept(cmd: Seq<char>) -> Seq<Seq<char>> {
    bash_candidates(cmd).filter(|p: Seq<char>| p != "/dev/null"@)
}

/// One filtering step: a candidate list grows by its last element
/// exactly when that element is not `/dev/null`.
proof fn lemma_keep_step(cands: Seq<Seq<char>>)
    requires
        cands.len() > 0,
    ensures
        cands.last() != "/dev/null"@ ==> cands.filter(|p: Seq<char>| p != "/dev/null"@)
            == cands.drop_last().filter(|p: Seq<char>| p != "/dev/null"@).push(cands.last()),
        cands.last() == "/dev/null"@ ==> cands.filter(|p: Seq<char>| p != "/dev/null"@)
            == cands.drop_last().filter(|p: Seq<char>| p != "/dev/null"@),
{
    reveal_with_fuel(Seq::filter, 2);
}

/// One token of a shell command.
enum ShellToken {
    /// A word: bare, or the contents of a quoted span.
    Word(Vec<char>),
    /// A command separator: `;`, `&` or `|`.
    Sep(char),
    /// An output redirect, `>` or `>>`.
    Redir,
}

/// The value of one token.
spec fn tok_view(t: ShellToken) -> TokSpec {
    match t {
        ShellToken::Word(w) => TokSpec::Word(w@),
        ShellToken::Sep(c) => TokSpec::Sep(c),
        ShellToken::Redir => TokSpec::Redir,
    }
}

/// Split a shell command into its tokens. Quoted spans become single
/// words without their quotes; `>` and `>>` are recognised even when
/// glued to the preceding word.
fn shell_tokens(cmd: &Vec<char>) -> (ts: Vec<ShellToken>)
    ensures
        ts@.map_values(|t: ShellToken| tok_view(t)) == toks(cmd@, 0),
{
    let n = cmd.len();
    let mut ts: Vec<ShellToken> = Vec::new();
    proof {
        assert(ts@.map_values(|t: ShellToken| tok_view(t)) =~= Seq::<TokSpec>::empty());
    }
    let mut i: usize = 0;
    while i < n
        invariant
            0 <= i <= n,
            n == cmd@.len(),
            toks(cmd@, 0) == ts@.map_values(|t: ShellToken| tok_view(t)) + toks(cmd@, i as int),
        decreases n - i,
    {
        let ghost before = ts@.map_values(|t: ShellToken| tok_view(t));
        let c = cmd[i];
        if text::is_wsp_char(c) {
            i = i + 1;
        } else if c == ';' || c == '&' || c == '|' {
            ts.push(ShellToken::Sep(c));
            proof {
                assert(ts@.map_values(|t: ShellToken| tok_view(t)) =~= before.push(
                    TokSpec::Sep(c),
                ));
                assert(before.push(TokSpec::Sep(c)) =~= before + seq![TokSpec::Sep(c)]);
            }
            i = i + 1;
        } else if c == '>' {
            ts.push(ShellToken::Redir);
            proof {
                assert(ts@.map_values(|t: ShellToken| tok_view(t)) =~= before.push(
                    TokSpec::Redir,
                ));
                assert(before.push(TokSpec::Redir) =~= before + seq![TokSpec::Redir]);
            }
            if i + 1 < n && cmd[i + 1] == '>' {
                i = i + 2;
            } else {
                i = i + 1;
            }
        } else if c == '"' || c == '\'' {
            // A quoted span: the word is its contents.
            let quote = c;
            let start = i + 1;
            let mut j = start;
            while j < n && cmd[j] != quote
                invariant
                    start <= j <= n,
                    n == cmd@.len(),
                    quote_end(cmd@, quote, start as int) == quote_end(cmd@, quote, j as int),
                decreases n - j,
            {
                j = j + 1;
            }
            proof {
                assert(quote_end(cmd@, quote, start as int) == j);
            }
            if j > start {
                let mut w: Vec<char> = Vec::new();
                let mut t = start;
                while t < j
                    invariant
                        start <= t <= j <= n,
                        n == cmd@.len(),
                        w@ == cmd@.subrange(start as int, t as int),
                    decreases j - t,
                {
                    w.push(cmd[t]);
                    assert(w@ =~= cmd@.subrange(start as int, t + 1));
                    t = t + 1;
                }
                let ghost wv = w@;
                ts.push(ShellToken::Word(w));
                proof {
                    assert(ts@.map_values(|t2: ShellToken| tok_view(t2)) =~= before.push(
                        TokSpec::Word(wv),
                    ));
                    assert(before.push(TokSpec::Word(wv)) =~= before + seq![TokSpec::Word(wv)]);
                }
            }
            if j < n {
                i = j + 1;
            } else {
                i = j;
            }
        } else {
            // A bare word: up to whitespace, a separator, a redirect or a
            // quote.
            let start = i;
            let mut j = i;
            proof {
                assert(!bare_stop(cmd@[i as int]));
            }
            while j < n && !text::is_wsp_char(cmd[j]) && cmd[j] != ';' && cmd[j] != '&'
                && cmd[j] != '|' && cmd[j] != '>' && cmd[j] != '"' && cmd[j] != '\''
                invariant
                    start <= j <= n,
                    n == cmd@.len(),
                    start == i,
                    bare_end(cmd@, start as int) == bare_end(cmd@, j as int),
                decreases n - j,
            {
                j = j + 1;
            }
            proof {
                assert(bare_end(cmd@, start as int) == j);
                assert(bare_end(cmd@, start as int) == bare_end(cmd@, start + 1));
                lemma_bare_end(cmd@, start + 1);
            }
            let end = if j > start {
                j
            } else {
                start + 1
            };
            proof {
                assert(end == bare_end(cmd@, i as int));
            }
            let mut w: Vec<char> = Vec::new();
            let mut t = start;
            while t < end
                invariant
                    start <= t <= end <= n,
                    n == cmd@.len(),
                    w@ == cmd@.subrange(start as int, t as int),
                decreases end - t,
            {
                w.push(cmd[t]);
                assert(w@ =~= cmd@.subrange(start as int, t + 1));
                t = t + 1;
            }
            let ghost wv = w@;
            ts.push(ShellToken::Word(w));
            proof {
                assert(ts@.map_values(|t2: ShellToken| tok_view(t2)) =~= before.push(
                    TokSpec::Word(wv),
                ));
                assert(before.push(TokSpec::Word(wv)) =~= before + seq![TokSpec::Word(wv)]);
            }
            i = end;
        }
    }
    proof {
        assert(toks(cmd@, i as int) =~= Seq::<TokSpec>::empty());
        assert(ts@.map_values(|t: ShellToken| tok_view(t)) + toks(cmd@, i as int)
            =~= ts@.map_values(|t: ShellToken| tok_view(t)));
    }
    ts
}

/// Whether the word starts with `-`, as command flags do.
fn is_flag(w: &Vec<char>) -> (r: bool)
    ensures
        r == flag_spec(w@),
{
    w.len() > 0 && w[0] == '-'
}

/// Whether the word is exactly the given short ASCII literal.
fn word_is(w: &Vec<char>, s: &str) -> (r: bool)
    ensures
        r == (w@ == s@),
{
    let sv = text::str_to_chars(s);
    if w.len() != sv.len() {
        return false;
    }
    let mut i: usize = 0;
    while i < w.len()
        invariant
            0 <= i <= w@.len(),
            sv@ == s@,
            w@.len() == sv@.len(),
            forall|t: int| 0 <= t < i ==> w@[t] == #[trigger] sv@[t],
        decreases w@.len() - i,
    {
        if w[i] != sv[i] {
            assert(w@[i as int] != s@[i as int]);
            return false;
        }
        i = i + 1;
    }
    proof {
        assert(w@ =~= s@);
    }
    true
}

/// Whether the word starts with the given short ASCII literal.
fn word_starts(w: &Vec<char>, s: &str) -> (r: bool)
    ensures
        r == crate::roles::is_prefix_of(w@, s@),
{
    let sv = text::str_to_chars(s);
    crate::roles::chars_is_prefix(w, &sv)
}

/// Whether the word is `/dev/null`.
fn is_dev_null(w: &Vec<char>) -> (r: bool)
    ensures
        r == (w@ == "/dev/null"@),
{
    proof {
        reveal_strlit("/dev/null");
    }
    let r = w.len() == 9 && w[0] == '/' && w[1] == 'd' && w[2] == 'e' && w[3] == 'v' && w[4]
        == '/' && w[5] == 'n' && w[6] == 'u' && w[7] == 'l' && w[8] == 'l';
    proof {
        if r {
            assert(w@ =~= "/dev/null"@);
        }
    }
    r
}

/// The next word token at or after `from` that is not a flag, stopping
/// at the first separator or redirect.
fn next_path_arg(ts: &Vec<ShellToken>, from: usize, skip_words: usize) -> (r: Option<Vec<char>>)
    requires
        from <= ts@.len(),
    ensures
        r matches Some(w) ==> w@.len() > 0,
        ({
            let tv = ts@.map_values(|t: ShellToken| tok_view(t));
            match r {
                Some(w) => next_arg(tv, from as int, skip_words as int) == Some(w@),
                None => next_arg(tv, from as int, skip_words as int) is None,
            }
        }),
{
    let ghost tv = ts@.map_values(|t: ShellToken| tok_view(t));
    let mut skip = skip_words;
    let mut k = from;
    while k < ts.len()
        invariant
            from <= k <= ts@.len(),
            tv == ts@.map_values(|t: ShellToken| tok_view(t)),
            0 <= skip <= skip_words,
            next_arg(tv, from as int, skip_words as int) == next_arg(tv, k as int, skip as int),
        decreases ts@.len() - k,
    {
        proof {
            assert(tv[k as int] == tok_view(ts@[k as int]));
        }
        match &ts[k] {
            ShellToken::Sep(_) => { return None; },
            ShellToken::Redir => { return None; },
            ShellToken::Word(w) => {
                if is_flag(w) {
                } else if skip > 0 {
                    skip = skip - 1;
                } else {
                    let mut copy: Vec<char> = Vec::new();
                    text::push_all(&mut copy, w);
                    if copy.len() > 0 {
                        return Some(copy);
                    }
                    return None;
                }
            },
        }
        k = k + 1;
    }
    None
}

/// All candidate write-target words of the command, before filtering.
///
/// Recognises `rm`, `mv`, `cp`, `mkdir`, `touch`, `tee` after a pipe,
/// `sed -i`, `chmod`, `chown`, `git checkout --`, `curl -o`, `wget -O`,
/// `dd of=` and output redirects.
fn collect_candidates(ts: &Vec<ShellToken>) -> (r: Vec<Vec<char>>)
    ensures
        r@.map_values(|w: Vec<char>| w@) == collect_spec(
            ts@.map_values(|t: ShellToken| tok_view(t)),
            0,
            true,
            false,
        ),
        forall|k: int| 0 <= k < r@.len() ==> (#[trigger] r@[k])@.len() > 0,
{
    let ghost tv = ts@.map_values(|t: ShellToken| tok_view(t));
    let mut out: Vec<Vec<char>> = Vec::new();
    let mut at_start = true;
    let mut after_pipe = false;
    proof {
        assert(out@.map_values(|w: Vec<char>| w@) =~= Seq::<Seq<char>>::empty());
    }
    let mut k: usize = 0;
    while k < ts.len()
        invariant
            0 <= k <= ts@.len(),
            tv == ts@.map_values(|t: ShellToken| tok_view(t)),
            collect_spec(tv, 0, true, false) == out@.map_values(|w: Vec<char>| w@)
                + collect_spec(tv, k as int, at_start, after_pipe),
            forall|t: int| 0 <= t < out@.len() ==> (#[trigger] out@[t])@.len() > 0,
        decreases ts@.len() - k,
    {
        proof {
            assert(tv[k as int] == tok_view(ts@[k as int]));
        }
        match &ts[k] {
            ShellToken::Sep(c) => {
                at_start = true;
                after_pipe = *c == '|';
            },
            ShellToken::Redir => {
                // `> path` or `>> path`
                let ghost before = out@.map_values(|w: Vec<char>| w@);
                match next_path_arg(ts, k + 1, 0) {
                    Some(w) => {
                        let ghost wv = w@;
                        out.push(w);
                        proof {
                            assert(out@.map_values(|w2: Vec<char>| w2@) =~= before.push(wv));
                            assert(before.push(wv) =~= before + opt_path(
                                next_arg(tv, k + 1, 0),
                            ));
                        }
                    },
                    None => {
                        proof {
                            assert(before + opt_path(next_arg(tv, k + 1, 0)) =~= before);
                        }
                    },
                }
                at_start = false;
            },
            ShellToken::Word(w) => {
                if at_start {
                    let ghost wv = w@;
                    let mut got: Option<Vec<char>> = None;
                    let mut got2: Option<Vec<char>> = None;
                    if word_is(w, "rm") || word_is(w, "mkdir") || word_is(w, "touch") {
                        got = next_path_arg(ts, k + 1, 0);
                    } else if word_is(w, "mv") || word_is(w, "cp") {
                        got = next_path_arg(ts, k + 1, 0);
                        got2 = next_path_arg(ts, k + 1, 1);
                    } else if word_is(w, "chmod") || word_is(w, "chown") {
                        got = next_path_arg(ts, k + 1, 1);
                    } else if word_is(w, "sed") {
                        // Only in-place editing touches a file.
                        let mut saw_inplace = false;
                        let mut t = k + 1;
                        let mut scanning = true;
                        while t < ts.len() && scanning
                            invariant
                                k + 1 <= t <= ts@.len(),
                                tv == ts@.map_values(|t2: ShellToken| tok_view(t2)),
                                sed_inplace(tv, k + 1) == (saw_inplace || (scanning
                                    && sed_inplace(tv, t as int))),
                            decreases ts@.len() - t + (if scanning {
                                1int
                            } else {
                                0int
                            }),
                        {
                            proof {
                                assert(tv[t as int] == tok_view(ts@[t as int]));
                            }
                            match &ts[t] {
                                ShellToken::Word(fw) => {
                                    if word_starts(fw, "-i") {
                                        saw_inplace = true;
                                    }
                                    t = t + 1;
                                },
                                _ => {
                                    scanning = false;
                                },
                            }
                        }
                        if saw_inplace {
                            got = next_path_arg(ts, k + 1, 1);
                        } else {
                            proof {
                                assert(!sed_inplace(tv, k + 1));
                            }
                        }
                    } else if word_is(w, "tee") {
                        if after_pipe {
                            got = next_path_arg(ts, k + 1, 0);
                        }
                    } else if word_is(w, "git") {
                        // `git checkout -- path`
                        let mut saw_checkout = false;
                        let mut t = k + 1;
                        let mut scanning = true;
                        while t < ts.len() && scanning
                            invariant
                                k + 1 <= t <= ts@.len(),
                                tv == ts@.map_values(|t2: ShellToken| tok_view(t2)),
                                scanning ==> got is None && git_cap(tv, k + 1, false) == git_cap(
                                    tv,
                                    t as int,
                                    saw_checkout,
                                ),
                                !scanning ==> (match got {
                                    Some(g) => git_cap(tv, k + 1, false) == Some(g@) && g@.len()
                                        > 0,
                                    None => git_cap(tv, k + 1, false) is None,
                                }),
                            decreases ts@.len() - t + (if scanning {
                                1int
                            } else {
                                0int
                            }),
                        {
                            proof {
                                assert(tv[t as int] == tok_view(ts@[t as int]));
                            }
                            match &ts[t] {
                                ShellToken::Word(fw) => {
                                    if word_is(fw, "checkout") {
                                        saw_checkout = true;
                                        t = t + 1;
                                    } else if word_is(fw, "--") && saw_checkout {
                                        got = next_path_arg(ts, t + 1, 0);
                                        scanning = false;
                                    } else {
                                        t = t + 1;
                                    }
                                },
                                _ => {
                                    scanning = false;
                                },
                            }
                        }
                        proof {
                            if scanning {
                                assert(git_cap(tv, t as int, saw_checkout) is None);
                            }
                        }
                    } else if word_is(w, "curl") || word_is(w, "wget") {
                        let mut t = k + 1;
                        let mut scanning = true;
                        while t < ts.len() && scanning
                            invariant
                                k + 1 <= t <= ts@.len(),
                                tv == ts@.map_values(|t2: ShellToken| tok_view(t2)),
                                scanning ==> got is None && cw_cap(tv, k + 1) == cw_cap(
                                    tv,
                                    t as int,
                                ),
                                !scanning ==> (match got {
                                    Some(g) => cw_cap(tv, k + 1) == Some(g@) && g@.len() > 0,
                                    None => cw_cap(tv, k + 1) is None,
                                }),
                            decreases ts@.len() - t + (if scanning {
                                1int
                            } else {
                                0int
                            }),
                        {
                            proof {
                                assert(tv[t as int] == tok_view(ts@[t as int]));
                            }
                            match &ts[t] {
                                ShellToken::Word(fw) => {
                                    if word_is(fw, "-o") || word_is(fw, "--output") || word_is(
                                        fw,
                                        "-O",
                                    ) || word_is(fw, "--output-document") {
                                        got = next_path_arg(ts, t + 1, 0);
                                        scanning = false;
                                    } else {
                                        t = t + 1;
                                    }
                                },
                                ShellToken::Sep(_) => {
                                    scanning = false;
                                },
                                ShellToken::Redir => {
                                    t = t + 1;
                                },
                            }
                        }
                        proof {
                            if scanning {
                                assert(cw_cap(tv, t as int) is None);
                            }
                        }
                    } else if word_is(w, "dd") {
                        let mut t = k + 1;
                        let mut scanning = true;
                        while t < ts.len() && scanning
                            invariant
                                k + 1 <= t <= ts@.len(),
                                tv == ts@.map_values(|t2: ShellToken| tok_view(t2)),
                                scanning ==> got is None && dd_cap(tv, k + 1) == dd_cap(
                                    tv,
                                    t as int,
                                ),
                                !scanning ==> (match got {
                                    Some(g) => dd_cap(tv, k + 1) == Some(g@) && g@.len() > 0,
                                    None => dd_cap(tv, k + 1) is None,
                                }),
                            decreases ts@.len() - t + (if scanning {
                                1int
                            } else {
                                0int
                            }),
                        {
                            proof {
                                assert(tv[t as int] == tok_view(ts@[t as int]));
                            }
                            match &ts[t] {
                                ShellToken::Word(fw) => {
                                    if word_starts(fw, "of=") && fw.len() > 3 {
                                        let mut pw: Vec<char> = Vec::new();
                                        let mut u: usize = 3;
                                        while u < fw.len()
                                            invariant
                                                3 <= u <= fw@.len(),
                                                pw@ == fw@.subrange(3, u as int),
                                            decreases fw@.len() - u,
                                        {
                                            pw.push(fw[u]);
                                            assert(pw@ =~= fw@.subrange(3, u + 1));
                                            u = u + 1;
                                        }
                                        got = Some(pw);
                                        scanning = false;
                                    } else {
                                        t = t + 1;
                                    }
                                },
                                ShellToken::Sep(_) => {
                                    scanning = false;
                                },
                                ShellToken::Redir => {
                                    t = t + 1;
                                },
                            }
                        }
                        proof {
                            if scanning {
                                assert(dd_cap(tv, t as int) is None);
                            }
                        }
                    }
                    let ghost caps = word_caps(tv, k as int, wv, after_pipe);
                    proof {
                        assert(match got {
                            Some(g) => caps == seq![g@] + (match got2 {
                                Some(g2) => seq![g2@],
                                None => Seq::<Seq<char>>::empty(),
                            }) && g@.len() > 0,
                            None => caps == (match got2 {
                                Some(g2) => seq![g2@],
                                None => Seq::<Seq<char>>::empty(),
                            }),
                        });
                        assert(match got2 {
                            Some(g2) => g2@.len() > 0,
                            None => true,
                        });
                    }
                    let ghost before = out@.map_values(|w2: Vec<char>| w2@);
                    if let Some(pw) = got {
                        if pw.len() > 0 {
                            let ghost pv = pw@;
                            out.push(pw);
                            proof {
                                assert(out@.map_values(|w2: Vec<char>| w2@) =~= before.push(pv));
                            }
                        }
                    }
                    let ghost mid = out@.map_values(|w2: Vec<char>| w2@);
                    if let Some(pw) = got2 {
                        if pw.len() > 0 {
                            let ghost pv = pw@;
                            out.push(pw);
                            proof {
                                assert(out@.map_values(|w2: Vec<char>| w2@) =~= mid.push(pv));
                            }
                        }
                    }
                    proof {
                        assert(out@.map_values(|w2: Vec<char>| w2@) =~= before + caps);
                    }
                    at_start = false;
                } else {
                    at_start = false;
                }
            },
        }
        k = k + 1;
    }
    proof {
        assert(collect_spec(tv, k as int, at_start, after_pipe) =~= Seq::<Seq<char>>::empty());
        assert(out@.map_values(|w: Vec<char>| w@) + collect_spec(
            tv,
            k as int,
            at_start,
            after_pipe,
        ) =~= out@.map_values(|w: Vec<char>| w@));
    }
    out
}

/// Some element of the list reads as `x`.
pub open spec fn view_mem(s: Seq<String>, x: Seq<char>) -> bool {
    exists|k: int| 0 <= k < s.len() && (#[trigger] s[k])@ == x
}

/// In a weakly sorted list whose neighbours differ, all elements differ.
proof fn lemma_sorted_pairwise_distinct(s: Seq<String>)
    requires
        forall|i: int, j: int|
            #![trigger s[i], s[j]]
            0 <= i <= j < s.len() ==> lex_le(s[i]@, s[j]@),
        forall|i: int| 0 <= i < s.len() - 1 ==> (#[trigger] s[i])@ != s[i + 1]@,
    ensures
        forall|i: int, j: int|
            #![trigger s[i], s[j]]
            0 <= i < j < s.len() ==> s[i]@ != s[j]@,
{
    assert forall|i: int, j: int|
        #![trigger s[i], s[j]]
        0 <= i < j < s.len() implies s[i]@ != s[j]@ by {
        if s[i]@ == s[j]@ {
            assert(lex_le(s[i]@, s[i + 1]@));
            assert(lex_le(s[i + 1]@, s[j]@));
            lemma_lex_antisym(s[i + 1]@, s[i]@);
            assert(false);
        }
    }
}

/// Sort strings lexicographically and drop duplicates. The result is
/// strictly increasing and holds exactly the input's distinct values.
#[verifier::rlimit(60)]
#[verifier::spinoff_prover]
pub(crate) fn sort_dedup(input: Vec<String>) -> (r: Vec<String>)
    ensures
        forall|i: int, j: int|
            #![trigger r@[i], r@[j]]
            0 <= i < j < r@.len() ==> lex_le(r@[i]@, r@[j]@) && r@[i]@ != r@[j]@,
        forall|k: int| 0 <= k < r@.len() ==> view_mem(input@, (#[trigger] r@[k])@),
        forall|t: int| 0 <= t < input@.len() ==> view_mem(r@, (#[trigger] input@[t])@),
{
    let mut work = input;
    let ghost orig = work@;
    let mut sorted: Vec<String> = Vec::new();
    proof {
        assert forall|k: int| 0 <= k < work@.len() implies view_mem(
            orig,
            (#[trigger] work@[k])@,
        ) by {
            assert(orig[k]@ == work@[k]@);
        }
        assert forall|t: int| 0 <= t < orig.len() implies view_mem(
            sorted@,
            (#[trigger] orig[t])@,
        ) || view_mem(work@, orig[t]@) by {
            assert(work@[t]@ == orig[t]@);
        }
    }
    while work.len() > 0
        invariant
            forall|i: int, j: int|
                #![trigger sorted@[i], sorted@[j]]
                0 <= i <= j < sorted@.len() ==> lex_le(sorted@[i]@, sorted@[j]@),
            forall|i: int, j: int|
                #![trigger sorted@[i], work@[j]]
                0 <= i < sorted@.len() && 0 <= j < work@.len() ==> lex_le(sorted@[i]@, work@[j]@),
            forall|k: int| 0 <= k < sorted@.len() ==> view_mem(orig, (#[trigger] sorted@[k])@),
            forall|k: int| 0 <= k < work@.len() ==> view_mem(orig, (#[trigger] work@[k])@),
            forall|t: int|
                0 <= t < orig.len() ==> view_mem(sorted@, (#[trigger] orig[t])@) || view_mem(
                    work@,
                    orig[t]@,
                ),
        decreases work@.len(),
    {
        let mut m: usize = 0;
        proof {
            lemma_lex_total(work@[0]@, work@[0]@);
        }
        let mut k: usize = 1;
        while k < work.len()
            invariant
                0 <= m < k <= work@.len(),
                forall|j: int| 0 <= j < k ==> lex_le(work@[m as int]@, (#[trigger] work@[j])@),
            decreases work@.len() - k,
        {
            let cand_first = crate::roles::str_lex_le(work[k].as_str(), work[m].as_str());
            if !cand_first {
                proof {
                    lemma_lex_total(work@[m as int]@, work@[k as int]@);
                }
            } else {
                proof {
                    assert forall|j: int| 0 <= j < k + 1 implies lex_le(
                        work@[k as int]@,
                        (#[trigger] work@[j])@,
                    ) by {
                        lemma_lex_total(work@[k as int]@, work@[k as int]@);
                        if j < k {
                            lemma_lex_trans(work@[k as int]@, work@[m as int]@, work@[j]@);
                        }
                    }
                }
                m = k;
            }
            k = k + 1;
        }
        let ghost prev_work = work@;
        let ghost prev_sorted = sorted@;
        let e = work.remove(m);
        proof {
            assert(e == prev_work[m as int]);
            assert forall|j: int| 0 <= j < work@.len() implies lex_le(
                e@,
                (#[trigger] work@[j])@,
            ) && view_mem(orig, work@[j]@) by {
                if j < m {
                    assert(work@[j] == prev_work[j]);
                } else {
                    assert(work@[j] == prev_work[j + 1]);
                }
            }
        }
        sorted.push(e);
        proof {
            assert(sorted@ == prev_sorted.push(e));
            assert(sorted@[prev_sorted.len() as int] == e);
            assert forall|i: int, j: int|
                #![trigger sorted@[i], sorted@[j]]
                0 <= i <= j < sorted@.len() implies lex_le(sorted@[i]@, sorted@[j]@) by {
                if j < prev_sorted.len() {
                    assert(sorted@[i] == prev_sorted[i]);
                    assert(sorted@[j] == prev_sorted[j]);
                } else if i < prev_sorted.len() {
                    assert(sorted@[i] == prev_sorted[i]);
                } else {
                    lemma_lex_total(e@, e@);
                }
            }
            assert forall|i: int, j: int|
                #![trigger sorted@[i], work@[j]]
                0 <= i < sorted@.len() && 0 <= j < work@.len() implies lex_le(
                sorted@[i]@,
                work@[j]@,
            ) by {
                if i < prev_sorted.len() {
                    assert(sorted@[i] == prev_sorted[i]);
                } else {
                    assert(sorted@[i] == e);
                }
            }
            assert forall|k2: int| 0 <= k2 < sorted@.len() implies view_mem(
                orig,
                (#[trigger] sorted@[k2])@,
            ) by {
                if k2 < prev_sorted.len() {
                    assert(sorted@[k2] == prev_sorted[k2]);
                }
            }
            assert forall|t: int| 0 <= t < orig.len() implies view_mem(
                sorted@,
                (#[trigger] orig[t])@,
            ) || view_mem(work@, orig[t]@) by {
                if view_mem(prev_sorted, orig[t]@) {
                    let k2 = choose|k2: int|
                        0 <= k2 < prev_sorted.len() && (#[trigger] prev_sorted[k2])@ == orig[t]@;
                    assert(sorted@[k2]@ == orig[t]@);
                } else if view_mem(prev_work, orig[t]@) {
                    let k2 = choose|k2: int|
                        0 <= k2 < prev_work.len() && (#[trigger] prev_work[k2])@ == orig[t]@;
                    if k2 == m {
                        assert(sorted@[prev_sorted.len() as int]@ == orig[t]@);
                    } else if k2 < m {
                        assert(work@[k2]@ == orig[t]@);
                    } else {
                        assert(work@[k2 - 1]@ == orig[t]@);
                    }
                }
            }
        }
    }
    dedup_sorted(sorted, Ghost(orig))
}


/// Drop adjacent duplicates of a sorted list, keeping its values.
#[verifier::rlimit(100)]
#[verifier::spinoff_prover]
fn dedup_sorted(sorted: Vec<String>, source: Ghost<Seq<String>>) -> (r: Vec<String>)
    requires
        forall|i: int, j: int|
            #![trigger sorted@[i], sorted@[j]]
            0 <= i <= j < sorted@.len() ==> lex_le(sorted@[i]@, sorted@[j]@),
        forall|k2: int|
            0 <= k2 < sorted@.len() ==> view_mem(source@, (#[trigger] sorted@[k2])@),
        forall|t: int|
            0 <= t < source@.len() ==> view_mem(sorted@, (#[trigger] source@[t])@),
    ensures
        forall|i: int, j: int|
            #![trigger r@[i], r@[j]]
            0 <= i < j < r@.len() ==> lex_le(r@[i]@, r@[j]@) && r@[i]@ != r@[j]@,
        forall|k: int| 0 <= k < r@.len() ==> view_mem(source@, (#[trigger] r@[k])@),
        forall|t: int| 0 <= t < source@.len() ==> view_mem(r@, (#[trigger] source@[t])@),
{
    let ghost orig = source@;
    let mut out: Vec<String> = Vec::new();
    let mut k: usize = 0;
    while k < sorted.len()
        invariant
            0 <= k <= sorted@.len(),
            forall|i: int, j: int|
                #![trigger sorted@[i], sorted@[j]]
                0 <= i <= j < sorted@.len() ==> lex_le(sorted@[i]@, sorted@[j]@),
            forall|i: int, j: int|
                #![trigger out@[i], out@[j]]
                0 <= i <= j < out@.len() ==> lex_le(out@[i]@, out@[j]@),
            forall|i: int| 0 <= i < out@.len() - 1 ==> (#[trigger] out@[i])@ != out@[i + 1]@,
            forall|i: int| 0 <= i < out@.len() ==> view_mem(sorted@, (#[trigger] out@[i])@),
            forall|t: int| 0 <= t < k ==> view_mem(out@, (#[trigger] sorted@[t])@),
            out@.len() > 0 ==> k > 0 && out@[out@.len() - 1]@ == sorted@[k - 1]@,
            forall|k2: int| 0 <= k2 < sorted@.len() ==> view_mem(orig, (#[trigger] sorted@[k2])@),
            forall|t: int| 0 <= t < orig.len() ==> view_mem(sorted@, (#[trigger] orig[t])@),
        decreases sorted@.len() - k,
    {
        let is_dup = if out.len() > 0 {
            out[out.len() - 1] == sorted[k]
        } else {
            false
        };
        let ghost prev_out = out@;
        if !is_dup {
            out.push(sorted[k].clone());
            proof {
                assert(out@[prev_out.len() as int]@ == sorted@[k as int]@);
                assert forall|i: int, j: int|
                    #![trigger out@[i], out@[j]]
                    0 <= i <= j < out@.len() implies lex_le(out@[i]@, out@[j]@) by {
                    if j < prev_out.len() {
                        assert(out@[i] == prev_out[i]);
                        assert(out@[j] == prev_out[j]);
                    } else if i < prev_out.len() {
                        assert(out@[i] == prev_out[i]);
                        // The previous last element bounds the prefix, and
                        // sortedness of the source bounds the new element.
                        let last = prev_out.len() - 1;
                        assert(lex_le(prev_out[i]@, prev_out[last]@));
                        assert(prev_out[last]@ == sorted@[k - 1]@);
                        assert(lex_le(sorted@[k - 1]@, sorted@[k as int]@));
                        lemma_lex_trans(prev_out[i]@, sorted@[k - 1]@, sorted@[k as int]@);
                    } else {
                        lemma_lex_total(out@[i]@, out@[i]@);
                    }
                }
                assert forall|i: int|
                    0 <= i < out@.len() - 1 implies (#[trigger] out@[i])@ != out@[i + 1]@ by {
                    if i + 1 < prev_out.len() {
                        assert(out@[i] == prev_out[i]);
                        assert(out@[i + 1] == prev_out[i + 1]);
                    } else {
                        assert(out@[i] == prev_out[i]);
                        assert(out@[i + 1]@ == sorted@[k as int]@);
                    }
                }
                assert forall|i: int| 0 <= i < out@.len() implies view_mem(
                    sorted@,
                    (#[trigger] out@[i])@,
                ) by {
                    if i < prev_out.len() {
                        assert(out@[i] == prev_out[i]);
                    } else {
                        assert(sorted@[k as int]@ == out@[i]@);
                    }
                }
                assert forall|t: int| 0 <= t < k + 1 implies view_mem(
                    out@,
                    (#[trigger] sorted@[t])@,
                ) by {
                    if t < k {
                        let i1 = choose|i1: int|
                            0 <= i1 < prev_out.len() && (#[trigger] prev_out[i1])@ == sorted@[t]@;
                        assert(out@[i1]@ == sorted@[t]@);
                    } else {
                        assert(out@[prev_out.len() as int]@ == sorted@[t]@);
                    }
                }
            }
        } else {
            proof {
                assert(out@[out@.len() - 1]@ == sorted@[k as int]@);
                assert forall|t: int| 0 <= t < k + 1 implies view_mem(
                    out@,
                    (#[trigger] sorted@[t])@,
                ) by {
                    if t == k {
                        assert(out@[out@.len() - 1]@ == sorted@[t]@);
                    }
                }
            }
        }
        k = k + 1;
    }
    proof {
        lemma_sorted_pairwise_distinct(out@);
        assert forall|i: int| 0 <= i < out@.len() implies view_mem(
            orig,
            (#[trigger] out@[i])@,
        ) by {
            let t1 = choose|t1: int|
                0 <= t1 < sorted@.len() && (#[trigger] sorted@[t1])@ == out@[i]@;
        }
        assert forall|t: int| 0 <= t < orig.len() implies view_mem(
            out@,
            (#[trigger] orig[t])@,
        ) by {
            let k1 = choose|k1: int|
                0 <= k1 < sorted@.len() && (#[trigger] sorted@[k1])@ == orig[t]@;
            let i1 = choose|i1: int| 0 <= i1 < out@.len() && (#[trigger] out@[i1])@ == sorted@[k1]@;
            assert(out@[i1]@ == orig[t]@);
        }
    }
    out
}


/// The list holds this exact character sequence.
pub open spec fn seq_mem(s: Seq<Seq<char>>, x: Seq<char>) -> bool {
    exists|t: int| 0 <= t < s.len() && #[trigger] s[t] == x
}

/// Extract write-target file paths from a shell command: exactly the
/// distinct candidates of the command battery and redirects, minus
/// `/dev/null`, sorted. Every returned path is a kept candidate, and
/// every kept candidate is returned.
pub fn extract_bash_paths(command: &str) -> (r: Vec<String>)
    ensures
        forall|i: int, j: int|
            #![trigger r@[i], r@[j]]
            0 <= i < j < r@.len() ==> lex_le(r@[i]@, r@[j]@) && r@[i]@ != r@[j]@,
        forall|k: int|
            0 <= k < r@.len() ==> (#[trigger] r@[k])@.len() > 0 && r@[k]@ != "/dev/null"@,
        forall|k: int| 0 <= k < r@.len() ==> seq_mem(bash_kept(command@), (#[trigger] r@[k])@),
        forall|t: int|
            0 <= t < bash_kept(command@).len() ==> view_mem(
                r@,
                #[trigger] bash_kept(command@)[t],
            ),
{
    let cmd = text::str_to_chars(command);
    let ts = shell_tokens(&cmd);
    let cands = collect_candidates(&ts);
    let ghost cv = cands@.map_values(|w: Vec<char>| w@);
    proof {
        assert(cv == bash_candidates(command@));
        assert(cv.take(0) =~= Seq::<Seq<char>>::empty());
        reveal_with_fuel(Seq::filter, 1);
        assert(cv.take(0).filter(|p: Seq<char>| p != "/dev/null"@) =~= Seq::<Seq<char>>::empty());
    }
    let mut kept: Vec<String> = Vec::new();
    let mut k: usize = 0;
    while k < cands.len()
        invariant
            0 <= k <= cands@.len(),
            cv == cands@.map_values(|w: Vec<char>| w@),
            forall|t: int| 0 <= t < cands@.len() ==> (#[trigger] cands@[t])@.len() > 0,
            kept.deep_view() == cv.take(k as int).filter(|p: Seq<char>| p != "/dev/null"@),
            forall|t: int|
                0 <= t < kept@.len() ==> (#[trigger] kept@[t])@.len() > 0 && kept@[t]@
                    != "/dev/null"@,
        decreases cands@.len() - k,
    {
        proof {
            assert(cv.take(k + 1).drop_last() =~= cv.take(k as int));
            assert(cv.take(k + 1).last() == cv[k as int]);
            assert(cv[k as int] == cands@[k as int]@);
            lemma_keep_step(cv.take(k + 1));
        }
        if !is_dev_null(&cands[k]) {
            let ghost before = kept@;
            kept.push(text::chars_to_string(&cands[k]));
            proof {
                assert(forall|t: int| 0 <= t < before.len() ==> kept@[t] == before[t]);
                assert(kept@[before.len() as int]@ == cands@[k as int]@);
                assert(kept.deep_view() =~= cv.take(k + 1).filter(
                    |p: Seq<char>| p != "/dev/null"@,
                ));
            }
        }
        k = k + 1;
    }
    proof {
        assert(cv.take(k as int) =~= cv);
    }
    let r = sort_dedup(kept);
    proof {
        assert(kept.deep_view() == bash_kept(command@));
        assert forall|k2: int|
            0 <= k2 < r@.len() implies (#[trigger] r@[k2])@.len() > 0 && r@[k2]@ != "/dev/null"@
            && seq_mem(bash_kept(command@), r@[k2]@) by {
            assert(view_mem(kept@, r@[k2]@));
            let t = choose|t: int| 0 <= t < kept@.len() && (#[trigger] kept@[t])@ == r@[k2]@;
            assert(kept.deep_view()[t] == kept@[t]@);
            assert(bash_kept(command@)[t] == r@[k2]@);
        }
        assert forall|t: int| 0 <= t < bash_kept(command@).len() implies view_mem(
            r@,
            #[trigger] bash_kept(command@)[t],
        ) by {
            assert(kept.deep_view()[t] == kept@[t]@);
            assert(kept@[t]@ == bash_kept(command@)[t]);
            assert(view_mem(kept@, kept@[t]@));
            let j = choose|j: int|
                0 <= j < r@.len() && (#[trigger] r@[j])@ == kept@[t]@;
        }
    }
    r
}

/// The path rebased against the working directory: when `cwd` prefixes
/// the path at a component boundary, the remainder; otherwise the path
/// unchanged.
pub open spec fn relativize_spec(path: Seq<char>, cwd: Seq<char>) -> Seq<char> {
    if crate::roles::is_prefix_of(path, cwd) && cwd.len() > 0 && (path.len() == cwd.len() || path[
        cwd.len() as int
    ] == '/') {
        let rest = path.skip(cwd.len() as int);
        if rest.len() > 0 && rest[0] == '/' {
            rest.skip(1)
        } else {
            rest
        }
    } else {
        path
    }
}

/// Rebase an absolute path against the working directory so that globs
/// like `src/**` match regardless of caller location.
pub fn relativize(path: &str, cwd: &str) -> (r: String)
    ensures
        r@ == relativize_spec(path@, cwd@),
{
    let pv = text::str_to_chars(path);
    let cv = text::str_to_chars(cwd);
    if cv.len() == 0 || !crate::roles::chars_is_prefix(&pv, &cv) {
        let mut out: Vec<char> = Vec::new();
        text::push_all(&mut out, &pv);
        return text::chars_to_string(&out);
    }
    if pv.len() > cv.len() && pv[cv.len()] != '/' {
        let mut out: Vec<char> = Vec::new();
        text::push_all(&mut out, &pv);
        return text::chars_to_string(&out);
    }
    let mut start = cv.len();
    proof {
        assert(path@.skip(cv@.len() as int).len() == pv@.len() - cv@.len());
    }
    if start < pv.len() && pv[start] == '/' {
        proof {
            assert(path@.skip(cv@.len() as int)[0] == path@[cv@.len() as int]);
        }
        start = start + 1;
    }
    let mut out: Vec<char> = Vec::new();
    let mut t = start;
    while t < pv.len()
        invariant
            start <= t <= pv@.len(),
            pv@ == path@,
            out@ == path@.subrange(start as int, t as int),
        decreases pv@.len() - t,
    {
        out.push(pv[t]);
        assert(out@ =~= path@.subrange(start as int, t + 1));
        t = t + 1;
    }
    proof {
        let rest = path@.skip(cv@.len() as int);
        if rest.len() > 0 && rest[0] == '/' {
            assert(out@ =~= rest.skip(1));
        } else {
            assert(out@ =~= rest);
        }
    }
    text::chars_to_string(&out)
}

/// The verdict the policy gives one path. Read-like tools: a sensitive
/// path asks, a readable path passes, everything else is denied.
/// Write-like tools: sensitive asks before deny, deny before allow,
/// unmatched paths pass. Within one path, sensitive is deliberately
/// checked before deny, so a path matching both asks.
pub open spec fn path_verdict_spec(
    policy: &CompiledPathPolicy,
    read_only: bool,
    path: Seq<char>,
) -> Option<Decision> {
    if read_only {
        if globs::set_matches(policy.sensitive_ask_write, path) {
            Some(Decision::Ask)
        } else if globs::set_matches(policy.allow_read, path) {
            None
        } else {
            Some(Decision::Deny)
        }
    } else {
        if globs::set_matches(policy.sensitive_ask_write, path) {
            Some(Decision::Ask)
        } else if globs::set_matches(policy.deny_write, path) {
            Some(Decision::Deny)
        } else if globs::set_matches(policy.allow_write, path) {
            Some(Decision::Allow)
        } else {
            None
        }
    }
}

/// Apply the policy to one path.
pub fn path_verdict(policy: &CompiledPathPolicy, read_only: bool, path: &str) -> (r: Option<
    Decision,
>)
    ensures
        r == path_verdict_spec(policy, read_only, path@),
{
    if read_only {
        if globs::globset_is_match(&policy.sensitive_ask_write, path) {
            Some(Decision::Ask)
        } else if globs::globset_is_match(&policy.allow_read, path) {
            None
        } else {
            Some(Decision::Deny)
        }
    } else {
        if globs::globset_is_match(&policy.sensitive_ask_write, path) {
            Some(Decision::Ask)
        } else if globs::globset_is_match(&policy.deny_write, path) {
            Some(Decision::Deny)
        } else if globs::globset_is_match(&policy.allow_write, path) {
            Some(Decision::Allow)
        } else {
            None
        }
    }
}

/// Evaluate the policy over every extracted path: the reported decision
/// is the most restrictive per-path verdict, with the path that carries
/// it; no verdict at all falls through.
pub fn evaluate_paths(policy: &CompiledPathPolicy, read_only: bool, paths: &Vec<String>) -> (r:
    Option<(Decision, String)>)
    ensures
        r is None <==> forall|k: int|
            0 <= k < paths@.len() ==> path_verdict_spec(policy, read_only, (#[trigger] paths@[k])@)
                is None,
        r matches Some((d, wp)) ==> exists|k: int|
            0 <= k < paths@.len() && path_verdict_spec(policy, read_only, (#[trigger] paths@[k])@)
                == Some(d) && wp@ == paths@[k]@,
        r matches Some((d, wp)) ==> forall|k: int|
            0 <= k < paths@.len() ==> (match path_verdict_spec(
                policy,
                read_only,
                (#[trigger] paths@[k])@,
            ) {
                Some(d2) => d2.precedence_spec() <= d.precedence_spec(),
                None => true,
            }),
{
    let mut worst: Option<(Decision, String)> = None;
    let mut k: usize = 0;
    while k < paths.len()
        invariant
            0 <= k <= paths@.len(),
            worst is None ==> forall|t: int|
                0 <= t < k ==> path_verdict_spec(policy, read_only, (#[trigger] paths@[t])@)
                    is None,
            worst matches Some((d, wp)) ==> exists|t: int|
                0 <= t < k && path_verdict_spec(policy, read_only, (#[trigger] paths@[t])@)
                    == Some(d) && wp@ == paths@[t]@,
            worst matches Some((d, wp)) ==> forall|t: int|
                0 <= t < k ==> (match path_verdict_spec(
                    policy,
                    read_only,
                    (#[trigger] paths@[t])@,
                ) {
                    Some(d2) => d2.precedence_spec() <= d.precedence_spec(),
                    None => true,
                }),
        decreases paths@.len() - k,
    {
        let verdict = path_verdict(policy, read_only, paths[k].as_str());
        if let Some(d) = verdict {
            let replace = match &worst {
                None => true,
                Some((cur, _)) => d.precedence() > cur.precedence(),
            };
            if replace {
                worst = Some((d, paths[k].clone()));
            }
        }
        k = k + 1;
    }
    worst
}

/// Tier 0: the deterministic path policy engine. The extraction grammar
/// is fixed, so the engine itself carries no state.
pub struct PathPolicyEngine {}

impl PathPolicyEngine {
    /// Build the engine.
    pub fn new() -> (r: Result<PathPolicyEngine, crate::error::CaptainHookError>)
        ensures
            r is Ok,
    {
        Ok(PathPolicyEngine {  })
    }
}

} // verus!
