//! The pipeline assembler: split an input line into stage strings at
//! unquoted ` | ` separators, tokenize each stage, and decide how every
//! stage's standard input, output and error are to be connected.
use vstd::prelude::*;

use crate::chars::{chars_to_string, str_chars};
use crate::scan::{scan_stage, ScanMode, ScanResult};
use crate::{Redirect, SpecRedirect, SpecStage, Stage, StageError};

verus! {

/// The stage strings of `s` from position `i` on: the line is cut at every
/// three-character ` | ` whose pipe stands at an unquoted position; quotes
/// and escapes are kept verbatim for the tokenizer. `mode` is the quoting
/// mode at `i`, `cur` the piece being accumulated, `acc` the pieces already
/// cut.
pub open spec fn split_pipe_from(
    s: Seq<char>,
    i: int,
    mode: ScanMode,
    cur: Seq<char>,
    acc: Seq<Seq<char>>,
) -> Seq<Seq<char>>
    decreases s.len() - i,
{
    if i < 0 || i >= s.len() {
        acc.push(cur)
    } else {
        let c = s[i];
        match mode {
            ScanMode::SingleQuoted => {
                if c == '\'' {
                    split_pipe_from(s, i + 1, ScanMode::Unquoted, cur.push(c), acc)
                } else {
                    split_pipe_from(s, i + 1, mode, cur.push(c), acc)
                }
            },
            ScanMode::DoubleQuoted => {
                if c == '"' {
                    split_pipe_from(s, i + 1, ScanMode::Unquoted, cur.push(c), acc)
                } else if c == '\\' && i + 1 < s.len() && (s[i + 1] == '"' || s[i + 1] == '\\') {
                    split_pipe_from(s, i + 2, mode, cur.push(c).push(s[i + 1]), acc)
                } else {
                    split_pipe_from(s, i + 1, mode, cur.push(c), acc)
                }
            },
            ScanMode::Unquoted => {
                if c == ' ' && i + 2 < s.len() && s[i + 1] == '|' && s[i + 2] == ' ' {
                    split_pipe_from(s, i + 3, mode, Seq::empty(), acc.push(cur))
                } else if c == '\'' {
                    split_pipe_from(s, i + 1, ScanMode::SingleQuoted, cur.push(c), acc)
                } else if c == '"' {
                    split_pipe_from(s, i + 1, ScanMode::DoubleQuoted, cur.push(c), acc)
                } else if c == '\\' && i + 1 < s.len() {
                    split_pipe_from(s, i + 2, mode, cur.push(c).push(s[i + 1]), acc)
                } else {
                    split_pipe_from(s, i + 1, mode, cur.push(c), acc)
                }
            },
        }
    }
}

/// The stage strings of one input line.
pub open spec fn spec_split_stages(s: Seq<char>) -> Seq<Seq<char>> {
    split_pipe_from(s, 0, ScanMode::Unquoted, Seq::empty(), Seq::empty())
}

/// Cut an input line into its stage strings at unquoted ` | ` separators.
pub fn split_stages(line: &str) -> (r: Vec<String>)
    ensures
        r.deep_view() == spec_split_stages(line@),
{
    let cs = str_chars(line);
    let n = cs.len();
    let mut mode = ScanMode::Unquoted;
    let mut cur: Vec<char> = Vec::new();
    let mut acc: Vec<String> = Vec::new();
    let mut i: usize = 0;
    proof {
        assert(acc.deep_view() =~= Seq::<Seq<char>>::empty());
    }
    while i < n
        invariant
            cs@ == line@,
            n == cs@.len(),
            i <= n,
            spec_split_stages(line@) == split_pipe_from(
                line@,
                i as int,
                mode,
                cur@,
                acc.deep_view(),
            ),
        decreases n - i,
    {
        let c = cs[i];
        match mode {
            ScanMode::SingleQuoted => {
                if c == '\'' {
                    mode = ScanMode::Unquoted;
                }
                cur.push(c);
                i += 1;
            },
            ScanMode::DoubleQuoted => {
                if c == '"' {
                    mode = ScanMode::Unquoted;
                    cur.push(c);
                    i += 1;
                } else if c == '\\' && i + 1 < n && (cs[i + 1] == '"' || cs[i + 1] == '\\') {
                    cur.push(c);
                    cur.push(cs[i + 1]);
                    i += 2;
                } else {
                    cur.push(c);
                    i += 1;
                }
            },
            ScanMode::Unquoted => {
                if c == ' ' && n - i > 2 && cs[i + 1] == '|' && cs[i + 2] == ' ' {
                    let ghost old_acc = acc.deep_view();
                    acc.push(chars_to_string(cur.as_slice()));
                    proof {
                        assert(acc.deep_view() =~= old_acc.push(cur@));
                    }
                    cur = Vec::new();
                    i += 3;
                } else if c == '\'' {
                    mode = ScanMode::SingleQuoted;
                    cur.push(c);
                    i += 1;
                } else if c == '"' {
                    mode = ScanMode::DoubleQuoted;
                    cur.push(c);
                    i += 1;
                } else if c == '\\' && i + 1 < n {
                    cur.push(c);
                    cur.push(cs[i + 1]);
                    i += 2;
                } else {
                    cur.push(c);
                    i += 1;
                }
            },
        }
    }
    let ghost old_acc = acc.deep_view();
    acc.push(chars_to_string(cur.as_slice()));
    proof {
        assert(acc.deep_view() =~= old_acc.push(cur@));
    }
    acc
}

/// The staged plan the stage strings denote: each one tokenized, the first
/// failure ending the whole line.
pub open spec fn plan_segs(segs: Seq<Seq<char>>) -> Result<Seq<SpecStage>, StageError>
    decreases segs.len(),
{
    if segs.len() == 0 {
        Ok(Seq::empty())
    } else {
        match scan_stage(segs[0]) {
            ScanResult::Stage(sp) => match plan_segs(segs.drop_first()) {
                Ok(rest) => Ok(seq![sp] + rest),
                Err(e) => Err(e),
            },
            ScanResult::BadRedirect => Err(StageError::BadRedirect),
            ScanResult::Empty => Err(StageError::Empty),
        }
    }
}

/// The staged plan one input line denotes.
pub open spec fn spec_plan(line: Seq<char>) -> Result<Seq<SpecStage>, StageError> {
    plan_segs(spec_split_stages(line))
}

/// Turn one input line into its staged plan: split at unquoted ` | `,
/// tokenize every stage, and fail on the first stage that does not parse.
pub fn plan_line(line: &str) -> (r: Result<Vec<Stage>, StageError>)
    ensures
        (match spec_plan(line@) {
            Ok(sps) => r matches Ok(v) && v.deep_view() == sps,
            Err(e) => r matches Err(e2) && e2 == e,
        }),
{
    let segs = split_stages(line);
    let ghost segs_v = segs.deep_view();
    let mut out: Vec<Stage> = Vec::new();
    let mut i: usize = 0;
    proof {
        assert(segs_v.subrange(0, segs_v.len() as int) =~= segs_v);
        assert(out.deep_view() + Seq::<SpecStage>::empty() =~= out.deep_view());
    }
    while i < segs.len()
        invariant
            segs_v == segs.deep_view(),
            segs_v == spec_split_stages(line@),
            i <= segs_v.len(),
            (match plan_segs(segs_v.subrange(i as int, segs_v.len() as int)) {
                Ok(rest) => plan_segs(segs_v) == Ok::<Seq<SpecStage>, StageError>(
                    out.deep_view() + rest,
                ),
                Err(e) => plan_segs(segs_v) == Err::<Seq<SpecStage>, StageError>(e),
            }),
        decreases segs_v.len() - i,
    {
        let ghost tail = segs_v.subrange(i as int, segs_v.len() as int);
        proof {
            assert(tail[0] == segs_v[i as int]);
            assert(tail.drop_first() =~= segs_v.subrange(i + 1, segs_v.len() as int));
        }
        match crate::scan::parse(segs[i].as_str()) {
            Ok(stage) => {
                let ghost old_out = out.deep_view();
                let ghost sp = stage@;
                out.push(stage);
                proof {
                    assert(out.deep_view() =~= old_out.push(sp));
                    assert(old_out.push(sp) + (match plan_segs(tail.drop_first()) {
                        Ok(rest) => rest,
                        Err(_) => Seq::empty(),
                    }) =~= old_out + (seq![sp] + (match plan_segs(tail.drop_first()) {
                        Ok(rest) => rest,
                        Err(_) => Seq::empty(),
                    })));
                }
            },
            Err(e) => {
                proof {
                    assert(segs@[i as int]@ == segs_v[i as int]);
                    assert(plan_segs(tail) == Err::<Seq<SpecStage>, StageError>(e));
                }
                return Err(e);
            },
        }
        i += 1;
    }
    proof {
        assert(segs_v.subrange(segs_v.len() as int, segs_v.len() as int) =~= Seq::<
            Seq<char>,
        >::empty());
        assert(out.deep_view() + Seq::<SpecStage>::empty() =~= out.deep_view());
    }
    Ok(out)
}

/// Where a stage's standard input comes from.
#[derive(Clone, Copy, PartialEq, Eq, Structural, Debug)]
pub enum InputWiring {
    /// The shell's own stdin: the stage is first in its pipeline.
    Inherit,
    /// The read end of the pipe from the stage before it.
    FromPipe,
}

/// Where a stage's standard output goes.
#[derive(Debug)]
pub enum OutputWiring {
    /// The shell's own stdout.
    Inherit,
    /// The write end of the pipe to the next stage.
    ToPipe,
    /// The stage's stdout redirection.
    ToFile(Redirect),
}

/// Where a stage's standard error goes: never into a pipe.
#[derive(Debug)]
pub enum ErrorWiring {
    /// The shell's own stderr.
    Inherit,
    /// The stage's stderr redirection.
    ToFile(Redirect),
}

/// Mathematical model of an `OutputWiring`.
pub ghost enum SpecOutputWiring {
    Inherit,
    ToPipe,
    ToFile(SpecRedirect),
}

/// Mathematical model of an `ErrorWiring`.
pub ghost enum SpecErrorWiring {
    Inherit,
    ToFile(SpecRedirect),
}

impl View for OutputWiring {
    type V = SpecOutputWiring;

    open spec fn view(&self) -> SpecOutputWiring {
        match self {
            OutputWiring::Inherit => SpecOutputWiring::Inherit,
            OutputWiring::ToPipe => SpecOutputWiring::ToPipe,
            OutputWiring::ToFile(rd) => SpecOutputWiring::ToFile(rd@),
        }
    }
}

impl View for ErrorWiring {
    type V = SpecErrorWiring;

    open spec fn view(&self) -> SpecErrorWiring {
        match self {
            ErrorWiring::Inherit => SpecErrorWiring::Inherit,
            ErrorWiring::ToFile(rd) => SpecErrorWiring::ToFile(rd@),
        }
    }
}

/// How one stage's descriptors are to be connected.
#[derive(Debug)]
pub struct StageIo {
    pub stdin: InputWiring,
    pub stdout: OutputWiring,
    pub stderr: ErrorWiring,
}

/// Mathematical model of a `StageIo`.
#[verifier::ext_equal]
pub ghost struct SpecStageIo {
    pub stdin: InputWiring,
    pub stdout: SpecOutputWiring,
    pub stderr: SpecErrorWiring,
}

impl View for StageIo {
    type V = SpecStageIo;

    open spec fn view(&self) -> SpecStageIo {
        SpecStageIo { stdin: self.stdin, stdout: self.stdout@, stderr: self.stderr@ }
    }
}

/// The wiring for a stage's stdout: into the pipe unless the stage is
/// last, then its redirection or the shell's stdout.
pub open spec fn out_wiring_of(redir: Option<SpecRedirect>, last: bool) -> SpecOutputWiring {
    if !last {
        SpecOutputWiring::ToPipe
    } else {
        match redir {
            Some(rd) => SpecOutputWiring::ToFile(rd),
            None => SpecOutputWiring::Inherit,
        }
    }
}

/// The wiring for a stage's stderr: its redirection or the shell's stderr.
pub open spec fn err_wiring_of(redir: Option<SpecRedirect>) -> SpecErrorWiring {
    match redir {
        Some(rd) => SpecErrorWiring::ToFile(rd),
        None => SpecErrorWiring::Inherit,
    }
}

/// The whole wiring of one stage, given its place in the pipeline.
pub open spec fn spec_stage_io(sp: SpecStage, first: bool, last: bool) -> SpecStageIo {
    SpecStageIo {
        stdin: if first {
            InputWiring::Inherit
        } else {
            InputWiring::FromPipe
        },
        stdout: out_wiring_of(sp.stdout_redir, last),
        stderr: err_wiring_of(sp.stderr_redir),
    }
}

fn clone_redirect(rd: &Redirect) -> (r: Redirect)
    ensures
        r@ == rd@,
{
    rd.clone()
}

/// Decide every stage's descriptor connections: stage `k` reads from the
/// pipe before it (the shell's stdin for the first), writes to the pipe
/// after it (its redirection or the shell's stdout for the last), and its
/// stderr never enters a pipe. One entry per stage: the launcher spawns,
/// and later reaps, one child per entry.
pub fn wire(stages: &Vec<Stage>) -> (r: Vec<StageIo>)
    ensures
        r@.len() == stages@.len(),
        forall|k: int|
            0 <= k < r@.len() ==> (#[trigger] r@[k])@ == spec_stage_io(
                stages@[k]@,
                k == 0,
                k + 1 == r@.len(),
            ),
{
    let n = stages.len();
    let mut r: Vec<StageIo> = Vec::new();
    let mut k: usize = 0;
    while k < n
        invariant
            n == stages@.len(),
            k <= n,
            r@.len() == k,
            forall|j: int|
                0 <= j < k ==> (#[trigger] r@[j])@ == spec_stage_io(
                    stages@[j]@,
                    j == 0,
                    j + 1 == n,
                ),
        decreases n - k,
    {
        let stage = &stages[k];
        let stdin = if k == 0 {
            InputWiring::Inherit
        } else {
            InputWiring::FromPipe
        };
        let stdout = if k + 1 < n {
            OutputWiring::ToPipe
        } else {
            match &stage.stdout_redir {
                Some(rd) => OutputWiring::ToFile(clone_redirect(rd)),
                None => OutputWiring::Inherit,
            }
        };
        let stderr = match &stage.stderr_redir {
            Some(rd) => ErrorWiring::ToFile(clone_redirect(rd)),
            None => ErrorWiring::Inherit,
        };
        r.push(StageIo { stdin, stdout, stderr });
        k += 1;
    }
    r
}

} // verus!
