//! Builtin dispatch: which command words run in-process, what each builtin
//! decides and prints, and the decisions behind the `PATH` walk. All I/O —
//! printing, changing directory, touching files — is the caller's part;
//! these functions pin down exactly what it must do.
use vstd::prelude::*;
use vstd::string::StringExecFns;

use crate::chars::{chars_to_string, spec_trim, str_chars, str_eq, trim};
use crate::numfmt::spec_count;

verus! {

/// The builtins the shell runs in-process.
#[derive(Clone, Copy, PartialEq, Eq, Structural, Debug)]
pub enum BuiltinKind {
    Echo,
    Exit,
    Type,
    Pwd,
    Cd,
    History,
}

/// Whether `name` is a builtin's name. Matching is exact and
/// case-sensitive; there is no prefix matching.
pub open spec fn spec_is_builtin(name: Seq<char>) -> bool {
    ||| name == "echo"@
    ||| name == "exit"@
    ||| name == "type"@
    ||| name == "pwd"@
    ||| name == "cd"@
    ||| name == "history"@
}

/// Which builtin a command word names, if any.
pub fn classify(cmd: &str) -> (r: Option<BuiltinKind>)
    ensures
        (match r {
            Some(BuiltinKind::Echo) => cmd@ == "echo"@,
            Some(BuiltinKind::Exit) => cmd@ == "exit"@,
            Some(BuiltinKind::Type) => cmd@ == "type"@,
            Some(BuiltinKind::Pwd) => cmd@ == "pwd"@,
            Some(BuiltinKind::Cd) => cmd@ == "cd"@,
            Some(BuiltinKind::History) => cmd@ == "history"@,
            None => !spec_is_builtin(cmd@),
        }),
{
    if str_eq(cmd, "echo") {
        Some(BuiltinKind::Echo)
    } else if str_eq(cmd, "exit") {
        Some(BuiltinKind::Exit)
    } else if str_eq(cmd, "type") {
        Some(BuiltinKind::Type)
    } else if str_eq(cmd, "pwd") {
        Some(BuiltinKind::Pwd)
    } else if str_eq(cmd, "cd") {
        Some(BuiltinKind::Cd)
    } else if str_eq(cmd, "history") {
        Some(BuiltinKind::History)
    } else {
        None
    }
}

/// The non-empty trimmed text of an input line, or nothing for a line that
/// is blank after trimming (such a line is discarded, with no history
/// entry).
pub fn prepare_line(line: &str) -> (r: Option<String>)
    ensures
        (match r {
            Some(t) => t@ == spec_trim(line@) && t@.len() > 0,
            None => spec_trim(line@).len() == 0,
        }),
{
    let t = trim(line);
    if t.as_str().unicode_len() == 0 {
        None
    } else {
        Some(t)
    }
}

/// The arguments joined with single spaces.
pub open spec fn spec_join(ts: Seq<Seq<char>>) -> Seq<char>
    decreases ts.len(),
{
    if ts.len() == 0 {
        Seq::empty()
    } else if ts.len() == 1 {
        ts[0]
    } else {
        ts[0].push(' ') + spec_join(ts.drop_first())
    }
}

/// What `echo` writes: its arguments joined with single spaces, then one
/// newline.
pub fn echo_output(argv: &Vec<String>) -> (r: String)
    ensures
        r@ == spec_join(argv.deep_view()).push('\n'),
{
    let ghost ts = argv.deep_view();
    let mut out: Vec<char> = Vec::new();
    let mut i: usize = 0;
    proof {
        assert(ts.subrange(0, ts.len() as int) =~= ts);
    }
    while i < argv.len()
        invariant
            ts == argv.deep_view(),
            i <= ts.len(),
            i < ts.len() ==> out@ + spec_join(ts.subrange(i as int, ts.len() as int)) =~= spec_join(
                ts,
            ),
            i == ts.len() ==> out@ =~= spec_join(ts),
        decreases ts.len() - i,
    {
        let ghost tail = ts.subrange(i as int, ts.len() as int);
        proof {
            assert(tail[0] == ts[i as int]);
            assert(tail.drop_first() =~= ts.subrange(i + 1, ts.len() as int));
        }
        let ghost out0 = out@;
        let word = str_chars(argv[i].as_str());
        let mut j: usize = 0;
        while j < word.len()
            invariant
                j <= word@.len(),
                out@ =~= out0 + word@.subrange(0, j as int),
            decreases word@.len() - j,
        {
            out.push(word[j]);
            j += 1;
        }
        proof {
            assert(word@.subrange(0, word@.len() as int) =~= word@);
            assert(out@ =~= out0 + ts[i as int]);
        }
        if i + 1 < argv.len() {
            out.push(' ');
            proof {
                assert(out@ =~= out0 + ts[i as int].push(' '));
            }
        }
        i += 1;
    }
    out.push('\n');
    proof {
        assert(out@ =~= spec_join(ts).push('\n'));
    }
    chars_to_string(out.as_slice())
}

/// The line `type` prints for a builtin's name.
pub fn builtin_message(name: &str) -> (r: String)
    ensures
        r@ == name@ + " is a shell builtin"@,
{
    let mut s = String::new();
    s.append(name);
    s.append(" is a shell builtin");
    proof {
        assert(s@ =~= name@ + " is a shell builtin"@);
    }
    s
}

/// The line printed for a command word that no builtin and no `PATH`
/// entry answers to.
pub fn not_found_message(name: &str) -> (r: String)
    ensures
        r@ == name@ + ": not found"@,
{
    let mut s = String::new();
    s.append(name);
    s.append(": not found");
    proof {
        assert(s@ =~= name@ + ": not found"@);
    }
    s
}

/// The line `type` prints for a name found on the `PATH`.
pub fn located_message(name: &str, path: &str) -> (r: String)
    ensures
        r@ == name@ + " is "@ + path@,
{
    let mut s = String::new();
    s.append(name);
    s.append(" is ");
    s.append(path);
    proof {
        assert(s@ =~= name@ + " is "@ + path@);
    }
    s
}

/// What `type NAME` prints, given what the `PATH` walk resolved `NAME` to.
/// A builtin's name never reaches the walk.
pub fn type_message(name: &str, resolved: Option<&String>) -> (r: String)
    ensures
        r@ == (if spec_is_builtin(name@) {
            name@ + " is a shell builtin"@
        } else {
            match resolved {
                Some(p) => name@ + " is "@ + p@,
                None => name@ + ": not found"@,
            }
        }),
{
    if classify(name).is_some() {
        builtin_message(name)
    } else {
        match resolved {
            Some(p) => located_message(name, p.as_str()),
            None => not_found_message(name),
        }
    }
}

/// The complaint `cd` prints for a target that does not exist.
pub fn cd_error_message(target: &str) -> (r: String)
    ensures
        r@ == "cd: "@ + target@ + ": No such file or directory"@,
{
    let mut s = String::new();
    s.append("cd: ");
    s.append(target);
    s.append(": No such file or directory");
    proof {
        assert(s@ =~= "cd: "@ + target@ + ": No such file or directory"@);
    }
    s
}

/// What `cd` is to do.
#[derive(Debug)]
pub enum CdPlan {
    /// No argument: a silent no-op.
    Stay,
    /// `cd ~`: change to the home directory unconditionally.
    Go(String),
    /// Change to the path if it exists; otherwise print the complaint.
    GoIfExists(String, String),
}

/// Decide `cd`: no argument is a no-op, `~` means the home directory, and
/// any other target is taken if it exists, complained about otherwise.
/// Whether the path exists is the caller's test.
pub fn cd_plan(arg: Option<&String>, home: &str) -> (r: CdPlan)
    ensures
        (match arg {
            None => r is Stay,
            Some(t) => {
                if t@ == "~"@ {
                    r matches CdPlan::Go(p) && p@ == home@
                } else {
                    r matches CdPlan::GoIfExists(p, msg) && p@ == t@ && msg@ == "cd: "@ + t@
                        + ": No such file or directory"@
                }
            },
        }),
{
    match arg {
        None => CdPlan::Stay,
        Some(t) => {
            if str_eq(t.as_str(), "~") {
                let mut p = String::new();
                p.append(home);
                proof {
                    assert(p@ =~= home@);
                }
                CdPlan::Go(p)
            } else {
                let msg = cd_error_message(t.as_str());
                CdPlan::GoIfExists(t.clone(), msg)
            }
        },
    }
}

/// What the `history` builtin is to do.
#[derive(Debug)]
pub enum HistoryCmd {
    /// Print the last so-many entries.
    List(usize),
    /// `history -r PATH`: load the file, appending `Saved` entries.
    ReadFile(String),
    /// `history -w PATH`: write every entry's text, truncating first.
    WriteFile(String),
    /// `history -a PATH`: append the `New` entries and promote them.
    AppendFile(String),
    /// A flag without its file, or a count that is not a number: print a
    /// diagnostic and continue.
    Invalid,
}

/// Decide the `history` builtin: no argument lists everything, a number
/// lists the last that many entries (all of them when the number is
/// larger), and `-r`, `-w`, `-a` name a file to load, write or append.
pub fn history_command(argv: &Vec<String>, hist_len: usize) -> (r: HistoryCmd)
    ensures
        ({
            let av = argv.deep_view();
            if av.len() == 0 {
                r matches HistoryCmd::List(m) && m == hist_len
            } else if av[0] == "-r"@ {
                if av.len() >= 2 {
                    r matches HistoryCmd::ReadFile(p) && p@ == av[1]
                } else {
                    r is Invalid
                }
            } else if av[0] == "-w"@ {
                if av.len() >= 2 {
                    r matches HistoryCmd::WriteFile(p) && p@ == av[1]
                } else {
                    r is Invalid
                }
            } else if av[0] == "-a"@ {
                if av.len() >= 2 {
                    r matches HistoryCmd::AppendFile(p) && p@ == av[1]
                } else {
                    r is Invalid
                }
            } else {
                match spec_count(av[0]) {
                    Some(k) => r matches HistoryCmd::List(m) && m as nat == (if k > hist_len as nat {
                        hist_len as nat
                    } else {
                        k
                    }),
                    None => r is Invalid,
                }
            }
        }),
{
    if argv.len() == 0 {
        return HistoryCmd::List(hist_len);
    }
    let first = &argv[0];
    if str_eq(first.as_str(), "-r") {
        if argv.len() >= 2 {
            HistoryCmd::ReadFile(argv[1].clone())
        } else {
            HistoryCmd::Invalid
        }
    } else if str_eq(first.as_str(), "-w") {
        if argv.len() >= 2 {
            HistoryCmd::WriteFile(argv[1].clone())
        } else {
            HistoryCmd::Invalid
        }
    } else if str_eq(first.as_str(), "-a") {
        if argv.len() >= 2 {
            HistoryCmd::AppendFile(argv[1].clone())
        } else {
            HistoryCmd::Invalid
        }
    } else {
        match crate::numfmt::parse_count(first.as_str()) {
            Some(k) => {
                if k > hist_len {
                    HistoryCmd::List(hist_len)
                } else {
                    HistoryCmd::List(k)
                }
            },
            None => HistoryCmd::Invalid,
        }
    }
}

/// The first name in a directory listing equal to the command word: the
/// `PATH` walk takes the first match in each directory, in listing order.
pub fn find_name(names: &Vec<String>, target: &str) -> (r: Option<usize>)
    ensures
        (match r {
            Some(i) => {
                &&& i < names@.len()
                &&& names.deep_view()[i as int] == target@
                &&& forall|j: int| 0 <= j < i ==> names.deep_view()[j] != target@
            },
            None => forall|j: int| 0 <= j < names@.len() ==> names.deep_view()[j] != target@,
        }),
{
    let mut i: usize = 0;
    while i < names.len()
        invariant
            i <= names@.len(),
            forall|j: int| 0 <= j < i ==> names.deep_view()[j] != target@,
        decreases names@.len() - i,
    {
        if str_eq(names[i].as_str(), target) {
            proof {
                assert(names.deep_view()[i as int] == target@);
            }
            return Some(i);
        }
        i += 1;
    }
    None
}

} // verus!
