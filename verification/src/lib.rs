//! An interactive command-line shell core: a quoting/redirection tokenizer,
//! a pipeline assembler, builtin dispatch rules, and a history store with
//! saved-vs-new provenance. Everything here is verified; the line editor and
//! the actual process spawning live outside the library.
use vstd::prelude::*;

pub mod builtins;
pub mod chars;
pub mod history;
pub mod numfmt;
pub mod pipeline;
pub mod scan;

verus! {

/// How a stage's stdout or stderr is to be connected to a file.
#[derive(Debug)]
pub enum Redirect {
    /// Truncate the file, or create it.
    Create(String),
    /// Create the file if absent, then append.
    Append(String),
}

impl View for Redirect {
    type V = SpecRedirect;

    open spec fn view(&self) -> SpecRedirect {
        match self {
            Redirect::Create(p) => SpecRedirect::Create(p@),
            Redirect::Append(p) => SpecRedirect::Append(p@),
        }
    }
}

impl DeepView for Redirect {
    type V = SpecRedirect;

    open spec fn deep_view(&self) -> SpecRedirect {
        self@
    }
}

impl Clone for Redirect {
    fn clone(&self) -> (r: Self)
        ensures
            r@ == self@,
    {
        match self {
            Redirect::Create(p) => Redirect::Create(p.clone()),
            Redirect::Append(p) => Redirect::Append(p.clone()),
        }
    }
}

/// Mathematical model of a `Redirect`.
pub ghost enum SpecRedirect {
    Create(Seq<char>),
    Append(Seq<char>),
}

/// One command of a pipeline: the command word, its arguments, and the
/// file redirections the tokenizer consumed for it.
#[derive(Debug)]
pub struct Stage {
    pub cmd: String,
    pub argv: Vec<String>,
    pub stdout_redir: Option<Redirect>,
    pub stderr_redir: Option<Redirect>,
}

/// Mathematical model of a `Stage`.
#[verifier::ext_equal]
pub ghost struct SpecStage {
    pub cmd: Seq<char>,
    pub argv: Seq<Seq<char>>,
    pub stdout_redir: Option<SpecRedirect>,
    pub stderr_redir: Option<SpecRedirect>,
}

impl View for Stage {
    type V = SpecStage;

    open spec fn view(&self) -> SpecStage {
        SpecStage {
            cmd: self.cmd@,
            argv: self.argv.deep_view(),
            stdout_redir: self.stdout_redir.deep_view(),
            stderr_redir: self.stderr_redir.deep_view(),
        }
    }
}

impl DeepView for Stage {
    type V = SpecStage;

    open spec fn deep_view(&self) -> SpecStage {
        self@
    }
}

/// Why a stage string yields no stage.
#[derive(Debug, PartialEq, Eq, Structural, Clone, Copy)]
pub enum StageError {
    /// A redirection operator was owed a target token and got none.
    BadRedirect,
    /// The stage held no token at all.
    Empty,
}

} // verus!
