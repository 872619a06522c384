//! The stage tokenizer: one left-to-right scan over the characters of a
//! stage string, honoring single quotes, double quotes, backslash escapes,
//! and the redirection operators `>`, `>>`, `1>`, `1>>`, `2>`, `2>>`.
//!
//! The scan is specified as a small-step machine (`scan`) over a
//! `ScanState`; `parse` is the executable tokenizer, proved to return
//! exactly what the machine denotes.
use vstd::prelude::*;

use crate::chars::{chars_to_string, str_chars};
use crate::{Redirect, SpecRedirect, SpecStage, Stage, StageError};

verus! {

/// Which quoting mode the scanner is in.
#[derive(Clone, Copy, PartialEq, Eq, Structural, Debug)]
pub enum ScanMode {
    Unquoted,
    SingleQuoted,
    DoubleQuoted,
}

/// A redirection operator already seen, whose target token is still owed.
#[derive(Clone, Copy, PartialEq, Eq, Structural, Debug)]
pub enum PendingRedirect {
    OutCreate,
    OutAppend,
    ErrCreate,
    ErrAppend,
}

/// The scanner's whole state between characters.
#[verifier::ext_equal]
pub ghost struct ScanState {
    pub mode: ScanMode,
    pub tokens: Seq<Seq<char>>,
    pub cur: Seq<char>,
    pub in_tok: bool,
    pub pending: Option<PendingRedirect>,
    pub out_r: Option<SpecRedirect>,
    pub err_r: Option<SpecRedirect>,
}

/// What scanning a stage string yields.
#[verifier::ext_equal]
pub ghost enum ScanResult {
    Stage(SpecStage),
    BadRedirect,
    Empty,
}

/// The scanner's starting state.
pub open spec fn init_state() -> ScanState {
    ScanState {
        mode: ScanMode::Unquoted,
        tokens: Seq::empty(),
        cur: Seq::empty(),
        in_tok: false,
        pending: None,
        out_r: None,
        err_r: None,
    }
}

/// End the current token, if one is open: a pending redirection operator
/// takes it as its target (the last operator of a kind wins); otherwise it
/// joins the token list.
pub open spec fn flush(st: ScanState) -> ScanState {
    if !st.in_tok {
        st
    } else {
        match st.pending {
            Some(PendingRedirect::OutCreate) => ScanState {
                cur: Seq::empty(),
                in_tok: false,
                pending: None,
                out_r: Some(SpecRedirect::Create(st.cur)),
                ..st
            },
            Some(PendingRedirect::OutAppend) => ScanState {
                cur: Seq::empty(),
                in_tok: false,
                pending: None,
                out_r: Some(SpecRedirect::Append(st.cur)),
                ..st
            },
            Some(PendingRedirect::ErrCreate) => ScanState {
                cur: Seq::empty(),
                in_tok: false,
                pending: None,
                err_r: Some(SpecRedirect::Create(st.cur)),
                ..st
            },
            Some(PendingRedirect::ErrAppend) => ScanState {
                cur: Seq::empty(),
                in_tok: false,
                pending: None,
                err_r: Some(SpecRedirect::Append(st.cur)),
                ..st
            },
            None => ScanState {
                tokens: st.tokens.push(st.cur),
                cur: Seq::empty(),
                in_tok: false,
                ..st
            },
        }
    }
}

/// The result a finished scan denotes: an unterminated quote simply ends
/// the token, an operator still owed a target is an error, and a stage
/// with no token at all is empty. The first token is the command word.
pub open spec fn finalize(st: ScanState) -> ScanResult {
    let f = flush(st);
    if f.pending is Some {
        ScanResult::BadRedirect
    } else if f.tokens.len() == 0 {
        ScanResult::Empty
    } else {
        ScanResult::Stage(
            SpecStage {
                cmd: f.tokens[0],
                argv: f.tokens.drop_first(),
                stdout_redir: f.out_r,
                stderr_redir: f.err_r,
            },
        )
    }
}

/// The small-step scan of `s` from position `i` in state `st`.
///
/// Unquoted mode: blanks end tokens; `'` and `"` open quoted segments that
/// concatenate into the current token; a backslash takes the next character
/// literally (a trailing lone one contributes nothing); `>` and `>>` end
/// the current token and expect a stdout target; `1>`, `1>>`, `2>`, `2>>`
/// do the same only at the start of a token (stdout and stderr
/// respectively). Single quotes take everything up to the next `'`
/// literally. Double quotes take everything up to the next `"` literally,
/// except that a backslash escapes a following `"` or `\`.
pub open spec fn scan(s: Seq<char>, i: int, st: ScanState) -> ScanResult
    decreases s.len() - i,
{
    if i < 0 || i >= s.len() {
        finalize(st)
    } else {
        let c = s[i];
        match st.mode {
            ScanMode::SingleQuoted => {
                if c == '\'' {
                    scan(s, i + 1, ScanState { mode: ScanMode::Unquoted, ..st })
                } else {
                    scan(s, i + 1, ScanState { cur: st.cur.push(c), ..st })
                }
            },
            ScanMode::DoubleQuoted => {
                if c == '"' {
                    scan(s, i + 1, ScanState { mode: ScanMode::Unquoted, ..st })
                } else if c == '\\' && i + 1 < s.len() && (s[i + 1] == '"' || s[i + 1] == '\\') {
                    scan(s, i + 2, ScanState { cur: st.cur.push(s[i + 1]), ..st })
                } else {
                    scan(s, i + 1, ScanState { cur: st.cur.push(c), ..st })
                }
            },
            ScanMode::Unquoted => {
                if c == ' ' || c == '\t' {
                    scan(s, i + 1, flush(st))
                } else if c == '\'' {
                    scan(s, i + 1, ScanState { mode: ScanMode::SingleQuoted, in_tok: true, ..st })
                } else if c == '"' {
                    scan(s, i + 1, ScanState { mode: ScanMode::DoubleQuoted, in_tok: true, ..st })
                } else if c == '>' {
                    let f = flush(st);
                    if f.pending is Some {
                        ScanResult::BadRedirect
                    } else if i + 1 < s.len() && s[i + 1] == '>' {
                        scan(s, i + 2, ScanState { pending: Some(PendingRedirect::OutAppend), ..f })
                    } else {
                        scan(s, i + 1, ScanState { pending: Some(PendingRedirect::OutCreate), ..f })
                    }
                } else if c == '1' && !st.in_tok && i + 1 < s.len() && s[i + 1] == '>' {
                    if st.pending is Some {
                        ScanResult::BadRedirect
                    } else if i + 2 < s.len() && s[i + 2] == '>' {
                        scan(s, i + 3, ScanState { pending: Some(PendingRedirect::OutAppend), ..st })
                    } else {
                        scan(s, i + 2, ScanState { pending: Some(PendingRedirect::OutCreate), ..st })
                    }
                } else if c == '2' && !st.in_tok && i + 1 < s.len() && s[i + 1] == '>' {
                    if st.pending is Some {
                        ScanResult::BadRedirect
                    } else if i + 2 < s.len() && s[i + 2] == '>' {
                        scan(s, i + 3, ScanState { pending: Some(PendingRedirect::ErrAppend), ..st })
                    } else {
                        scan(s, i + 2, ScanState { pending: Some(PendingRedirect::ErrCreate), ..st })
                    }
                } else if c == '\\' {
                    if i + 1 < s.len() {
                        scan(s, i + 2, ScanState { cur: st.cur.push(s[i + 1]), in_tok: true, ..st })
                    } else {
                        scan(s, i + 1, ScanState { in_tok: true, ..st })
                    }
                } else {
                    scan(s, i + 1, ScanState { cur: st.cur.push(c), in_tok: true, ..st })
                }
            },
        }
    }
}

/// The tokenizer's denotation on one whole stage string.
pub open spec fn scan_stage(s: Seq<char>) -> ScanResult {
    scan(s, 0, init_state())
}

/// Scanning a single-quoted body takes every character up to the closing
/// quote into the current token.
proof fn lemma_scan_single_quoted_body(s: Seq<char>, i: int, st: ScanState, x: Seq<char>)
    requires
        st.mode == ScanMode::SingleQuoted,
        0 <= i,
        i + x.len() <= s.len(),
        s.subrange(i, i + x.len()) == x,
        forall|j: int| 0 <= j < x.len() ==> x[j] != '\'',
    ensures
        scan(s, i, st) == scan(s, i + x.len(), ScanState { cur: st.cur + x, ..st }),
    decreases x.len(),
{
    if x.len() == 0 {
        assert(st.cur + x =~= st.cur);
        assert(ScanState { cur: st.cur + x, ..st } =~~= st);
    } else {
        assert(s[i] == x[0]);
        let st1 = ScanState { cur: st.cur.push(x[0]), ..st };
        assert(scan(s, i, st) == scan(s, i + 1, st1));
        assert(s.subrange(i + 1, i + 1 + (x.len() - 1)) =~= x.drop_first());
        lemma_scan_single_quoted_body(s, i + 1, st1, x.drop_first());
        assert(st.cur.push(x[0]) + x.drop_first() =~= st.cur + x);
        assert(ScanState { cur: st1.cur + x.drop_first(), ..st1 } =~~= ScanState {
            cur: st.cur + x,
            ..st
        });
    }
}

/// Scanning a double-quoted body free of `"` and `\` takes every character
/// up to the closing quote into the current token.
proof fn lemma_scan_double_quoted_body(s: Seq<char>, i: int, st: ScanState, x: Seq<char>)
    requires
        st.mode == ScanMode::DoubleQuoted,
        0 <= i,
        i + x.len() <= s.len(),
        s.subrange(i, i + x.len()) == x,
        forall|j: int| 0 <= j < x.len() ==> x[j] != '"' && x[j] != '\\',
    ensures
        scan(s, i, st) == scan(s, i + x.len(), ScanState { cur: st.cur + x, ..st }),
    decreases x.len(),
{
    if x.len() == 0 {
        assert(st.cur + x =~= st.cur);
        assert(ScanState { cur: st.cur + x, ..st } =~~= st);
    } else {
        assert(s[i] == x[0]);
        let st1 = ScanState { cur: st.cur.push(x[0]), ..st };
        assert(scan(s, i, st) == scan(s, i + 1, st1));
        assert(s.subrange(i + 1, i + 1 + (x.len() - 1)) =~= x.drop_first());
        lemma_scan_double_quoted_body(s, i + 1, st1, x.drop_first());
        assert(st.cur.push(x[0]) + x.drop_first() =~= st.cur + x);
        assert(ScanState { cur: st1.cur + x.drop_first(), ..st1 } =~~= ScanState {
            cur: st.cur + x,
            ..st
        });
    }
}

/// Law: tokenizing `'X'` yields the single token `X`, for any `X` not
/// containing a single quote.
pub proof fn lemma_single_quote_round_trip(x: Seq<char>)
    requires
        forall|j: int| 0 <= j < x.len() ==> x[j] != '\'',
    ensures
        scan_stage(seq!['\''] + x + seq!['\'']) == ScanResult::Stage(
            SpecStage { cmd: x, argv: Seq::empty(), stdout_redir: None, stderr_redir: None },
        ),
{
    let s = seq!['\''] + x + seq!['\''];
    let st0 = init_state();
    assert(s[0] == '\'');
    let st1 = ScanState { mode: ScanMode::SingleQuoted, in_tok: true, ..st0 };
    assert(scan(s, 0, st0) == scan(s, 1, st1));
    assert(s.subrange(1, 1 + x.len() as int) =~= x);
    lemma_scan_single_quoted_body(s, 1, st1, x);
    let st2 = ScanState { cur: st1.cur + x, ..st1 };
    assert(s[1 + x.len() as int] == '\'');
    let st3 = ScanState { mode: ScanMode::Unquoted, ..st2 };
    assert(scan(s, 1 + x.len() as int, st2) == scan(s, 2 + x.len() as int, st3));
    assert(scan(s, 2 + x.len() as int, st3) == finalize(st3));
    assert(st3.cur =~= x);
    let f = flush(st3);
    assert(f.tokens =~= seq![x]);
    assert(finalize(st3) == ScanResult::Stage(
        SpecStage {
            cmd: f.tokens[0],
            argv: f.tokens.drop_first(),
            stdout_redir: f.out_r,
            stderr_redir: f.err_r,
        },
    ));
    assert(f.tokens.drop_first() =~= Seq::<Seq<char>>::empty());
    assert(f.tokens[0] == x);
}

/// Law: tokenizing `"X"` yields the single token `X`, for any `X`
/// containing neither a double quote nor a backslash.
pub proof fn lemma_double_quote_round_trip(x: Seq<char>)
    requires
        forall|j: int| 0 <= j < x.len() ==> x[j] != '"' && x[j] != '\\',
    ensures
        scan_stage(seq!['"'] + x + seq!['"']) == ScanResult::Stage(
            SpecStage { cmd: x, argv: Seq::empty(), stdout_redir: None, stderr_redir: None },
        ),
{
    let s = seq!['"'] + x + seq!['"'];
    let st0 = init_state();
    assert(s[0] == '"');
    let st1 = ScanState { mode: ScanMode::DoubleQuoted, in_tok: true, ..st0 };
    assert(scan(s, 0, st0) == scan(s, 1, st1));
    assert(s.subrange(1, 1 + x.len() as int) =~= x);
    lemma_scan_double_quoted_body(s, 1, st1, x);
    let st2 = ScanState { cur: st1.cur + x, ..st1 };
    assert(s[1 + x.len() as int] == '"');
    let st3 = ScanState { mode: ScanMode::Unquoted, ..st2 };
    assert(scan(s, 1 + x.len() as int, st2) == scan(s, 2 + x.len() as int, st3));
    assert(scan(s, 2 + x.len() as int, st3) == finalize(st3));
    assert(st3.cur =~= x);
    let f = flush(st3);
    assert(f.tokens =~= seq![x]);
    assert(finalize(st3) == ScanResult::Stage(
        SpecStage {
            cmd: f.tokens[0],
            argv: f.tokens.drop_first(),
            stdout_redir: f.out_r,
            stderr_redir: f.err_r,
        },
    ));
    assert(f.tokens.drop_first() =~= Seq::<Seq<char>>::empty());
    assert(f.tokens[0] == x);
}

/// On input free of quotes and backslashes, the scan never lets a `>` into
/// a token: every `>` is consumed as an operator.
proof fn lemma_scan_tokens_no_gt(s: Seq<char>, i: int, st: ScanState)
    requires
        0 <= i <= s.len(),
        forall|j: int| i <= j < s.len() ==> s[j] != '\'' && s[j] != '"' && s[j] != '\\',
        st.mode == ScanMode::Unquoted,
        !st.cur.contains('>'),
        forall|k: int| 0 <= k < st.tokens.len() ==> !(#[trigger] st.tokens[k]).contains('>'),
    ensures
        (match scan(s, i, st) {
            ScanResult::Stage(sp) => !sp.cmd.contains('>') && forall|k: int|
                0 <= k < sp.argv.len() ==> !(#[trigger] sp.argv[k]).contains('>'),
            _ => true,
        }),
    decreases s.len() - i,
{
    let f = flush(st);
    assert(!f.cur.contains('>'));
    assert(forall|k: int| 0 <= k < f.tokens.len() ==> !(#[trigger] f.tokens[k]).contains('>'));
    if i >= s.len() {
        match finalize(st) {
            ScanResult::Stage(sp) => {
                assert(sp.cmd == f.tokens[0]);
                assert(forall|k: int|
                    0 <= k < sp.argv.len() ==> #[trigger] sp.argv[k] == f.tokens[k + 1]);
            },
            _ => {},
        }
    } else {
        let c = s[i];
        if c == ' ' || c == '\t' {
            lemma_scan_tokens_no_gt(s, i + 1, f);
        } else if c == '>' {
            if f.pending is Some {
            } else if i + 1 < s.len() && s[i + 1] == '>' {
                lemma_scan_tokens_no_gt(
                    s,
                    i + 2,
                    ScanState { pending: Some(PendingRedirect::OutAppend), ..f },
                );
            } else {
                lemma_scan_tokens_no_gt(
                    s,
                    i + 1,
                    ScanState { pending: Some(PendingRedirect::OutCreate), ..f },
                );
            }
        } else if c == '1' && !st.in_tok && i + 1 < s.len() && s[i + 1] == '>' {
            if st.pending is Some {
            } else if i + 2 < s.len() && s[i + 2] == '>' {
                lemma_scan_tokens_no_gt(
                    s,
                    i + 3,
                    ScanState { pending: Some(PendingRedirect::OutAppend), ..st },
                );
            } else {
                lemma_scan_tokens_no_gt(
                    s,
                    i + 2,
                    ScanState { pending: Some(PendingRedirect::OutCreate), ..st },
                );
            }
        } else if c == '2' && !st.in_tok && i + 1 < s.len() && s[i + 1] == '>' {
            if st.pending is Some {
            } else if i + 2 < s.len() && s[i + 2] == '>' {
                lemma_scan_tokens_no_gt(
                    s,
                    i + 3,
                    ScanState { pending: Some(PendingRedirect::ErrAppend), ..st },
                );
            } else {
                lemma_scan_tokens_no_gt(
                    s,
                    i + 2,
                    ScanState { pending: Some(PendingRedirect::ErrCreate), ..st },
                );
            }
        } else {
            let st1 = ScanState { cur: st.cur.push(c), in_tok: true, ..st };
            assert(!st1.cur.contains('>')) by {
                if st1.cur.contains('>') {
                    let j = choose|j: int| 0 <= j < st1.cur.len() && st1.cur[j] == '>';
                    if j < st.cur.len() {
                        assert(st.cur.contains('>'));
                    }
                }
            }
            lemma_scan_tokens_no_gt(s, i + 1, st1);
        }
    }
}

/// Law: on a stage string free of quotes and backslashes, no element of
/// `argv` (and not the command word either) is one of the redirection
/// operators `>`, `>>`, `1>`, `1>>`, `2>`, `2>>`: each of those is consumed
/// with its target, never emitted as a token. (A quoted or escaped
/// operator, as in `'>'`, is an ordinary argument by design.)
pub proof fn lemma_argv_no_redirect_operators(s: Seq<char>, sp: SpecStage)
    requires
        forall|j: int| 0 <= j < s.len() ==> s[j] != '\'' && s[j] != '"' && s[j] != '\\',
        scan_stage(s) == ScanResult::Stage(sp),
    ensures
        forall|k: int| 0 <= k < sp.argv.len() ==> !(#[trigger] sp.argv[k]).contains('>'),
        !sp.cmd.contains('>'),
        forall|k: int|
            0 <= k < sp.argv.len() ==> #[trigger] sp.argv[k] != seq!['>'] && sp.argv[k] != seq![
                '>',
                '>',
            ] && sp.argv[k] != seq!['1', '>'] && sp.argv[k] != seq!['1', '>', '>'] && sp.argv[k]
                != seq!['2', '>'] && sp.argv[k] != seq!['2', '>', '>'],
{
    lemma_scan_tokens_no_gt(s, 0, init_state());
    assert forall|k: int| 0 <= k < sp.argv.len() implies #[trigger] sp.argv[k] != seq!['>']
        && sp.argv[k] != seq!['>', '>'] && sp.argv[k] != seq!['1', '>'] && sp.argv[k] != seq![
        '1',
        '>',
        '>',
    ] && sp.argv[k] != seq!['2', '>'] && sp.argv[k] != seq!['2', '>', '>'] by {
        assert(seq!['>'][0] == '>');
        assert(seq!['>', '>'][0] == '>');
        assert(seq!['1', '>'][1] == '>');
        assert(seq!['1', '>', '>'][1] == '>');
        assert(seq!['2', '>'][1] == '>');
        assert(seq!['2', '>', '>'][1] == '>');
        assert(!sp.argv[k].contains('>'));
        if sp.argv[k] == seq!['>'] {
            assert(sp.argv[k].contains('>'));
        }
        if sp.argv[k] == seq!['>', '>'] {
            assert(sp.argv[k].contains('>'));
        }
        if sp.argv[k] == seq!['1', '>'] {
            assert(sp.argv[k].contains('>'));
        }
        if sp.argv[k] == seq!['1', '>', '>'] {
            assert(sp.argv[k].contains('>'));
        }
        if sp.argv[k] == seq!['2', '>'] {
            assert(sp.argv[k].contains('>'));
        }
        if sp.argv[k] == seq!['2', '>', '>'] {
            assert(sp.argv[k].contains('>'));
        }
    }
}

/// A token written back into stage-string form, every character behind a
/// backslash, so that whatever it holds — spaces, quotes, operators — reads
/// as itself.
pub open spec fn escape_all(t: Seq<char>) -> Seq<char>
    decreases t.len(),
{
    if t.len() == 0 {
        Seq::empty()
    } else {
        seq!['\\', t[0]] + escape_all(t.drop_first())
    }
}

/// A token rendered back into stage-string form: the empty token as an
/// empty pair of single quotes, any other escaped character by character.
pub open spec fn render_token(t: Seq<char>) -> Seq<char> {
    if t.len() == 0 {
        seq!['\'', '\'']
    } else {
        escape_all(t)
    }
}

/// A token list rendered back into one stage string, single spaces between
/// the tokens.
pub open spec fn render_tokens(ts: Seq<Seq<char>>) -> Seq<char>
    decreases ts.len(),
{
    if ts.len() == 0 {
        Seq::empty()
    } else if ts.len() == 1 {
        render_token(ts[0])
    } else {
        render_token(ts[0]) + seq![' '] + render_tokens(ts.drop_first())
    }
}

proof fn lemma_escape_all_len(t: Seq<char>)
    ensures
        escape_all(t).len() == 2 * t.len(),
    decreases t.len(),
{
    if t.len() > 0 {
        lemma_escape_all_len(t.drop_first());
    }
}

proof fn lemma_escape_all_push(x: Seq<char>, c: char)
    ensures
        escape_all(x.push(c)) == escape_all(x) + seq!['\\', c],
    decreases x.len(),
{
    if x.len() == 0 {
        assert(x.push(c).drop_first() =~= Seq::<char>::empty());
        assert(escape_all(Seq::<char>::empty()) == Seq::<char>::empty());
        assert(x.push(c)[0] == c);
        assert(escape_all(x.push(c)) =~= escape_all(x) + seq!['\\', c]);
    } else {
        assert(x.push(c).drop_first() =~= x.drop_first().push(c));
        lemma_escape_all_push(x.drop_first(), c);
        assert(x.push(c)[0] == x[0]);
        assert(escape_all(x.push(c)) == seq!['\\', x[0]] + escape_all(x.drop_first().push(c)));
        assert(escape_all(x.push(c)) == seq!['\\', x[0]] + (escape_all(x.drop_first()) + seq![
            '\\',
            c,
        ]));
        assert(escape_all(x.push(c)) =~= escape_all(x) + seq!['\\', c]);
    }
}

/// Write a token list back into one stage string: each token escaped
/// character by character (an empty token as an empty pair of single
/// quotes), single spaces between the tokens. What this returns tokenizes
/// back to exactly the given tokens (`lemma_render_round_trip`).
pub fn render_line(tokens: &Vec<String>) -> (r: String)
    ensures
        r@ == render_tokens(tokens.deep_view()),
{
    let ghost ts = tokens.deep_view();
    let mut out: Vec<char> = Vec::new();
    let mut i: usize = 0;
    proof {
        assert(ts.subrange(0, ts.len() as int) =~= ts);
    }
    while i < tokens.len()
        invariant
            ts == tokens.deep_view(),
            i <= ts.len(),
            i < ts.len() ==> out@ + render_tokens(ts.subrange(i as int, ts.len() as int))
                =~= render_tokens(ts),
            i == ts.len() ==> out@ =~= render_tokens(ts),
        decreases ts.len() - i,
    {
        let ghost tail = ts.subrange(i as int, ts.len() as int);
        proof {
            assert(tail[0] == ts[i as int]);
            assert(tail.drop_first() =~= ts.subrange(i + 1, ts.len() as int));
        }
        let ghost out0 = out@;
        let word = str_chars(tokens[i].as_str());
        if word.len() == 0 {
            out.push('\'');
            out.push('\'');
            proof {
                assert(out@ =~= out0 + render_token(ts[i as int]));
            }
        } else {
            let mut j: usize = 0;
            while j < word.len()
                invariant
                    j <= word@.len(),
                    out@ =~= out0 + escape_all(word@.subrange(0, j as int)),
                decreases word@.len() - j,
            {
                out.push('\\');
                out.push(word[j]);
                j += 1;
                proof {
                    assert(word@.subrange(0, j - 1).push(word@[j - 1]) =~= word@.subrange(
                        0,
                        j as int,
                    ));
                    lemma_escape_all_push(word@.subrange(0, j - 1), word@[j - 1]);
                    assert(out@ =~= out0 + escape_all(word@.subrange(0, j as int)));
                }
            }
            proof {
                assert(word@.subrange(0, word@.len() as int) =~= word@);
                assert(out@ =~= out0 + render_token(ts[i as int]));
            }
        }
        if i + 1 < tokens.len() {
            out.push(' ');
            proof {
                assert(out@ =~= out0 + (render_token(ts[i as int]) + seq![' ']));
                assert((out0 + (render_token(ts[i as int]) + seq![' '])) + render_tokens(
                    tail.drop_first(),
                ) =~= out0 + (render_token(ts[i as int]) + seq![' '] + render_tokens(
                    tail.drop_first(),
                )));
            }
        }
        i += 1;
    }
    proof {
        if ts.len() == 0 {
            assert(out@ =~= render_tokens(ts));
        }
    }
    chars_to_string(out.as_slice())
}

/// Scanning an escaped token takes exactly its characters into the current
/// token.
proof fn lemma_scan_escaped(s: Seq<char>, i: int, st: ScanState, t: Seq<char>)
    requires
        st.mode == ScanMode::Unquoted,
        t.len() > 0,
        0 <= i,
        i + 2 * t.len() <= s.len(),
        s.subrange(i, i + 2 * t.len()) == escape_all(t),
    ensures
        scan(s, i, st) == scan(
            s,
            i + 2 * t.len(),
            ScanState { cur: st.cur + t, in_tok: true, ..st },
        ),
    decreases t.len(),
{
    lemma_escape_all_len(t);
    lemma_escape_all_len(t.drop_first());
    assert(s[i] == escape_all(t)[0]);
    assert(escape_all(t)[0] == '\\');
    assert(s[i + 1] == escape_all(t)[1]);
    assert(escape_all(t)[1] == t[0]);
    let st1 = ScanState { cur: st.cur.push(t[0]), in_tok: true, ..st };
    assert(scan(s, i, st) == scan(s, i + 2, st1));
    if t.len() == 1 {
        assert(st.cur.push(t[0]) =~= st.cur + t);
        assert(st1 =~~= ScanState { cur: st.cur + t, in_tok: true, ..st });
    } else {
        assert(s.subrange(i + 2, i + 2 + 2 * (t.len() - 1)) =~= escape_all(t).subrange(
            2,
            2 * t.len() as int,
        ));
        assert(escape_all(t).subrange(2, 2 * t.len() as int) =~= escape_all(t.drop_first()));
        lemma_scan_escaped(s, i + 2, st1, t.drop_first());
        assert(st.cur.push(t[0]) + t.drop_first() =~= st.cur + t);
        assert(ScanState { cur: st1.cur + t.drop_first(), in_tok: true, ..st1 } =~~= ScanState {
            cur: st.cur + t,
            in_tok: true,
            ..st
        });
    }
}

/// Scanning a rendered token takes exactly its characters into the current
/// token; an empty token passes as an empty pair of single quotes.
proof fn lemma_scan_rendered_token(s: Seq<char>, i: int, st: ScanState, t: Seq<char>)
    requires
        st.mode == ScanMode::Unquoted,
        0 <= i,
        i + render_token(t).len() <= s.len(),
        s.subrange(i, i + render_token(t).len()) == render_token(t),
    ensures
        scan(s, i, st) == scan(
            s,
            i + render_token(t).len(),
            ScanState { cur: st.cur + t, in_tok: true, ..st },
        ),
{
    if t.len() == 0 {
        assert(s[i] == '\'');
        assert(s[i + 1] == '\'');
        let st1 = ScanState { mode: ScanMode::SingleQuoted, in_tok: true, ..st };
        assert(scan(s, i, st) == scan(s, i + 1, st1));
        let st2 = ScanState { mode: ScanMode::Unquoted, ..st1 };
        assert(scan(s, i + 1, st1) == scan(s, i + 2, st2));
        assert(st.cur + t =~= st.cur);
        assert(st2 =~~= ScanState { cur: st.cur + t, in_tok: true, ..st });
    } else {
        lemma_escape_all_len(t);
        lemma_scan_escaped(s, i, st, t);
    }
}

/// Scanning rendered tokens to the end of the string appends exactly those
/// tokens to the token list.
proof fn lemma_scan_rendered_tokens(s: Seq<char>, i: int, st: ScanState, ts: Seq<Seq<char>>)
    requires
        st.mode == ScanMode::Unquoted,
        !st.in_tok,
        st.cur.len() == 0,
        st.pending is None,
        0 <= i,
        i + render_tokens(ts).len() == s.len(),
        s.subrange(i, s.len() as int) == render_tokens(ts),
    ensures
        scan(s, i, st) == finalize(ScanState { tokens: st.tokens + ts, ..st }),
    decreases ts.len(),
{
    if ts.len() == 0 {
        assert(i == s.len());
        assert(st.tokens + ts =~= st.tokens);
        assert(ScanState { tokens: st.tokens + ts, ..st } =~~= st);
    } else if ts.len() == 1 {
        assert(render_tokens(ts) == render_token(ts[0]));
        assert(s.subrange(i, i + render_token(ts[0]).len()) =~= render_token(ts[0]));
        lemma_scan_rendered_token(s, i, st, ts[0]);
        let st1 = ScanState { cur: st.cur + ts[0], in_tok: true, ..st };
        let i1 = i + render_token(ts[0]).len();
        assert(i1 == s.len());
        assert(scan(s, i1, st1) == finalize(st1));
        let f1 = flush(st1);
        let st2 = ScanState { tokens: st.tokens + ts, ..st };
        assert(st.cur + ts[0] =~= ts[0]);
        assert(st.tokens.push(ts[0]) =~= st.tokens + ts);
        assert(f1 =~~= st2);
        assert(flush(st2) == st2);
        assert(finalize(st1) == finalize(st2));
    } else {
        let rt0 = render_token(ts[0]);
        let rest = render_tokens(ts.drop_first());
        assert(render_tokens(ts) == rt0 + seq![' '] + rest);
        let i1 = i + rt0.len();
        assert(s.subrange(i, i1) =~= rt0);
        lemma_scan_rendered_token(s, i, st, ts[0]);
        let st1 = ScanState { cur: st.cur + ts[0], in_tok: true, ..st };
        assert(s[i1] == (rt0 + seq![' '] + rest)[i1 - i]);
        assert(s[i1] == ' ');
        assert(scan(s, i1, st1) == scan(s, i1 + 1, flush(st1)));
        let st2 = flush(st1);
        assert(st.cur + ts[0] =~= ts[0]);
        assert(st2 =~~= ScanState { tokens: st.tokens.push(ts[0]), ..st });
        assert forall|j: int| 0 <= j < rest.len() implies s[i1 + 1 + j] == rest[j] by {
            assert(s[i1 + 1 + j] == s.subrange(i, s.len() as int)[i1 + 1 + j - i]);
            assert((rt0 + seq![' '] + rest)[rt0.len() + 1 + j] == rest[j]);
        }
        assert(s.subrange(i1 + 1, s.len() as int) =~= rest);
        lemma_scan_rendered_tokens(s, i1 + 1, st2, ts.drop_first());
        assert(st2.tokens + ts.drop_first() =~= st.tokens + ts);
        assert(ScanState { tokens: st2.tokens + ts.drop_first(), ..st2 } =~~= ScanState {
            tokens: st.tokens + ts,
            ..st
        });
    }
}

/// Law: any non-empty token list, rendered back into one stage string,
/// tokenizes to exactly that token list, with no redirections.
pub proof fn lemma_render_round_trip(ts: Seq<Seq<char>>)
    requires
        ts.len() >= 1,
    ensures
        scan_stage(render_tokens(ts)) == ScanResult::Stage(
            SpecStage {
                cmd: ts[0],
                argv: ts.drop_first(),
                stdout_redir: None,
                stderr_redir: None,
            },
        ),
{
    let s = render_tokens(ts);
    assert(s.subrange(0, s.len() as int) =~= s);
    lemma_scan_rendered_tokens(s, 0, init_state(), ts);
    let st2 = ScanState { tokens: init_state().tokens + ts, ..init_state() };
    assert(st2.tokens =~= ts);
    assert(flush(st2) == st2);
    assert(finalize(st2) == ScanResult::Stage(
        SpecStage {
            cmd: ts[0],
            argv: ts.drop_first(),
            stdout_redir: None,
            stderr_redir: None,
        },
    ));
}

/// Law: the token list a successful tokenize yields, rendered back into
/// one line, re-tokenizes to the same token list.
pub proof fn lemma_tokens_round_trip(s: Seq<char>, sp: SpecStage)
    requires
        scan_stage(s) == ScanResult::Stage(sp),
    ensures
        scan_stage(render_tokens(seq![sp.cmd] + sp.argv)) == ScanResult::Stage(
            SpecStage {
                cmd: sp.cmd,
                argv: sp.argv,
                stdout_redir: None,
                stderr_redir: None,
            },
        ),
{
    let ts = seq![sp.cmd] + sp.argv;
    lemma_render_round_trip(ts);
    assert(ts[0] == sp.cmd);
    assert(ts.drop_first() =~= sp.argv);
}

/// The scanner state the executable tokenizer's variables stand for.
pub open spec fn st_of(
    mode: ScanMode,
    tokens: Seq<Seq<char>>,
    cur: Seq<char>,
    in_tok: bool,
    pending: Option<PendingRedirect>,
    out_r: Option<SpecRedirect>,
    err_r: Option<SpecRedirect>,
) -> ScanState {
    ScanState { mode, tokens, cur, in_tok, pending, out_r, err_r }
}

/// Executable counterpart of `flush`, over the tokenizer's variables.
fn flush_exec(
    tokens: &mut Vec<String>,
    cur: &mut Vec<char>,
    in_tok: &mut bool,
    pending: &mut Option<PendingRedirect>,
    out_r: &mut Option<Redirect>,
    err_r: &mut Option<Redirect>,
    Ghost(mode): Ghost<ScanMode>,
)
    ensures
        st_of(
            mode,
            final(tokens).deep_view(),
            final(cur)@,
            *final(in_tok),
            *final(pending),
            final(out_r).deep_view(),
            final(err_r).deep_view(),
        ) == flush(
            st_of(
                mode,
                old(tokens).deep_view(),
                old(cur)@,
                *old(in_tok),
                *old(pending),
                old(out_r).deep_view(),
                old(err_r).deep_view(),
            ),
        ),
{
    if *in_tok {
        let t = chars_to_string(cur.as_slice());
        match *pending {
            Some(PendingRedirect::OutCreate) => {
                *out_r = Some(Redirect::Create(t));
                *pending = None;
            },
            Some(PendingRedirect::OutAppend) => {
                *out_r = Some(Redirect::Append(t));
                *pending = None;
            },
            Some(PendingRedirect::ErrCreate) => {
                *err_r = Some(Redirect::Create(t));
                *pending = None;
            },
            Some(PendingRedirect::ErrAppend) => {
                *err_r = Some(Redirect::Append(t));
                *pending = None;
            },
            None => {
                let ghost before = tokens.deep_view();
                tokens.push(t);
                proof {
                    assert(tokens.deep_view() =~= before.push(old(cur)@));
                }
            },
        }
        cur.clear();
        *in_tok = false;
    }
    proof {
        assert(st_of(
            mode,
            tokens.deep_view(),
            cur@,
            *in_tok,
            *pending,
            out_r.deep_view(),
            err_r.deep_view(),
        ) =~~= flush(
            st_of(
                mode,
                old(tokens).deep_view(),
                old(cur)@,
                *old(in_tok),
                *old(pending),
                old(out_r).deep_view(),
                old(err_r).deep_view(),
            ),
        ));
    }
}

/// Tokenize one stage string: the first token is the command word, the
/// rest are its arguments, and the redirection operators with their target
/// tokens are consumed into the stage's redirections, never into `argv`.
pub fn parse(input: &str) -> (r: Result<Stage, StageError>)
    ensures
        (match scan_stage(input@) {
            ScanResult::Stage(sp) => r matches Ok(stage) && stage@ == sp,
            ScanResult::BadRedirect => r == Err::<Stage, StageError>(StageError::BadRedirect),
            ScanResult::Empty => r == Err::<Stage, StageError>(StageError::Empty),
        }),
{
    let s = str_chars(input);
    let n = s.len();
    let mut mode = ScanMode::Unquoted;
    let mut tokens: Vec<String> = Vec::new();
    let mut cur: Vec<char> = Vec::new();
    let mut in_tok = false;
    let mut pending: Option<PendingRedirect> = None;
    let mut out_r: Option<Redirect> = None;
    let mut err_r: Option<Redirect> = None;
    let mut i: usize = 0;
    proof {
        assert(st_of(
            mode,
            tokens.deep_view(),
            cur@,
            in_tok,
            pending,
            out_r.deep_view(),
            err_r.deep_view(),
        ) =~~= init_state());
    }
    while i < n
        invariant
            s@ == input@,
            n == s@.len(),
            i <= n,
            scan(
                input@,
                i as int,
                st_of(
                    mode,
                    tokens.deep_view(),
                    cur@,
                    in_tok,
                    pending,
                    out_r.deep_view(),
                    err_r.deep_view(),
                ),
            ) == scan_stage(input@),
        decreases n - i,
    {
        let ghost st0 = st_of(
            mode,
            tokens.deep_view(),
            cur@,
            in_tok,
            pending,
            out_r.deep_view(),
            err_r.deep_view(),
        );
        let ghost i0 = i as int;
        let c = s[i];
        match mode {
            ScanMode::SingleQuoted => {
                if c == '\'' {
                    mode = ScanMode::Unquoted;
                } else {
                    cur.push(c);
                }
                i += 1;
            },
            ScanMode::DoubleQuoted => {
                if c == '"' {
                    mode = ScanMode::Unquoted;
                    i += 1;
                } else if c == '\\' && i + 1 < n && (s[i + 1] == '"' || s[i + 1] == '\\') {
                    cur.push(s[i + 1]);
                    i += 2;
                } else {
                    cur.push(c);
                    i += 1;
                }
            },
            ScanMode::Unquoted => {
                if c == ' ' || c == '\t' {
                    flush_exec(
                        &mut tokens,
                        &mut cur,
                        &mut in_tok,
                        &mut pending,
                        &mut out_r,
                        &mut err_r,
                        Ghost(mode),
                    );
                    i += 1;
                } else if c == '\'' {
                    mode = ScanMode::SingleQuoted;
                    in_tok = true;
                    i += 1;
                } else if c == '"' {
                    mode = ScanMode::DoubleQuoted;
                    in_tok = true;
                    i += 1;
                } else if c == '>' {
                    flush_exec(
                        &mut tokens,
                        &mut cur,
                        &mut in_tok,
                        &mut pending,
                        &mut out_r,
                        &mut err_r,
                        Ghost(mode),
                    );
                    if pending.is_some() {
                        return Err(StageError::BadRedirect);
                    }
                    if i + 1 < n && s[i + 1] == '>' {
                        pending = Some(PendingRedirect::OutAppend);
                        i += 2;
                    } else {
                        pending = Some(PendingRedirect::OutCreate);
                        i += 1;
                    }
                } else if c == '1' && !in_tok && i + 1 < n && s[i + 1] == '>' {
                    if pending.is_some() {
                        return Err(StageError::BadRedirect);
                    }
                    if i + 2 < n && s[i + 2] == '>' {
                        pending = Some(PendingRedirect::OutAppend);
                        i += 3;
                    } else {
                        pending = Some(PendingRedirect::OutCreate);
                        i += 2;
                    }
                } else if c == '2' && !in_tok && i + 1 < n && s[i + 1] == '>' {
                    if pending.is_some() {
                        return Err(StageError::BadRedirect);
                    }
                    if i + 2 < n && s[i + 2] == '>' {
                        pending = Some(PendingRedirect::ErrAppend);
                        i += 3;
                    } else {
                        pending = Some(PendingRedirect::ErrCreate);
                        i += 2;
                    }
                } else if c == '\\' {
                    if i + 1 < n {
                        cur.push(s[i + 1]);
                        in_tok = true;
                        i += 2;
                    } else {
                        in_tok = true;
                        i += 1;
                    }
                } else {
                    cur.push(c);
                    in_tok = true;
                    i += 1;
                }
            },
        }
        proof {
            let st1 = st_of(
                mode,
                tokens.deep_view(),
                cur@,
                in_tok,
                pending,
                out_r.deep_view(),
                err_r.deep_view(),
            );
            assert(scan(input@, i as int, st1) == scan(input@, i0, st0));
        }
    }
    let ghost st_end = st_of(
        mode,
        tokens.deep_view(),
        cur@,
        in_tok,
        pending,
        out_r.deep_view(),
        err_r.deep_view(),
    );
    proof {
        assert(scan(input@, n as int, st_end) == finalize(st_end));
    }
    flush_exec(&mut tokens, &mut cur, &mut in_tok, &mut pending, &mut out_r, &mut err_r, Ghost(mode));
    let ghost f = st_of(
        mode,
        tokens.deep_view(),
        cur@,
        in_tok,
        pending,
        out_r.deep_view(),
        err_r.deep_view(),
    );
    proof {
        assert(f == flush(st_end));
    }
    if pending.is_some() {
        return Err(StageError::BadRedirect);
    }
    if tokens.len() == 0 {
        return Err(StageError::Empty);
    }
    let cmd = tokens.remove(0);
    proof {
        assert(tokens.deep_view() =~= f.tokens.drop_first());
        assert(cmd@ == f.tokens[0]);
    }
    let stage = Stage { cmd, argv: tokens, stdout_redir: out_r, stderr_redir: err_r };
    proof {
        assert(stage@ =~~= SpecStage {
            cmd: f.tokens[0],
            argv: f.tokens.drop_first(),
            stdout_redir: f.out_r,
            stderr_redir: f.err_r,
        });
    }
    Ok(stage)
}

} // verus!
