//! The interpreter's only side-effect channel: printed lines, prompts, and
//! lines of input. A [`Host`] either runs live against the process's
//! standard streams or scripted from a fixed list of input lines; either
//! way it keeps a full log of what was printed, so the contracts of the
//! evaluator and executor can state output exactly.

use std::io::Write;

use vstd::prelude::*;

verus! {

/// The views of a vector of strings, element by element.
pub open spec fn texts(v: Seq<String>) -> Seq<Seq<char>> {
    Seq::new(v.len(), |i: int| v[i]@)
}

/// Relies on std::io::Stdin::read_line: reads one line from standard
/// input, terminator included; yields nothing on an input error.
#[verifier::external_body]
fn read_stdin_line() -> (r: Option<String>) {
    let mut line = String::new();
    match std::io::stdin().read_line(&mut line) {
        Ok(_) => Some(line),
        Err(_) => None,
    }
}

/// Relies on std::io::Stdout: writes the text and a newline to standard
/// output.
#[verifier::external_body]
fn write_stdout_line(s: &str) {
    let _ = writeln!(std::io::stdout(), "{}", s);
}

/// Relies on std::io::Stdout: writes the text to standard output without
/// a newline and flushes, so prompts appear before input is read.
#[verifier::external_body]
fn write_stdout(s: &str) {
    let mut out = std::io::stdout();
    let _ = write!(out, "{}", s);
    let _ = out.flush();
}

/// The abstraction of a host's whole input/output state.
pub struct IoModel {
    pub live: bool,
    pub inputs: Seq<Seq<char>>,
    pub cursor: int,
    pub output: Seq<Seq<char>>,
    pub prompts: Seq<Seq<char>>,
}

/// The side-effect channel of a run: printed lines, prompts, and input.
pub struct Host {
    live: bool,
    inputs: Vec<String>,
    cursor: usize,
    output: Vec<String>,
    prompts: Vec<String>,
}

impl Host {
    /// Whether this host reads and writes the real standard streams.
    pub closed spec fn live(self) -> bool {
        self.live
    }

    /// The scripted input lines.
    pub closed spec fn inputs(self) -> Seq<Seq<char>> {
        texts(self.inputs@)
    }

    /// How many scripted input lines were consumed.
    pub closed spec fn cursor(self) -> int {
        self.cursor as int
    }

    /// The log of printed lines.
    pub closed spec fn output(self) -> Seq<Seq<char>> {
        texts(self.output@)
    }

    /// The log of prompts shown before reading input.
    pub closed spec fn prompts(self) -> Seq<Seq<char>> {
        texts(self.prompts@)
    }

    /// The whole input/output state as one abstraction.
    pub open spec fn io(self) -> IoModel {
        IoModel {
            live: self.live(),
            inputs: self.inputs(),
            cursor: self.cursor(),
            output: self.output(),
            prompts: self.prompts(),
        }
    }

    /// Well-formedness: the cursor never passes the scripted input.
    pub closed spec fn wf(self) -> bool {
        self.cursor <= self.inputs@.len()
    }

    /// A host that reads and writes the real standard streams.
    pub fn interactive() -> (r: Host)
        ensures
            r.wf(),
            r.live(),
            r.output() == Seq::<Seq<char>>::empty(),
            r.prompts() == Seq::<Seq<char>>::empty(),
            r.cursor() == 0,
    {
        let r = Host { live: true, inputs: Vec::new(), cursor: 0, output: Vec::new(), prompts: Vec::new() };
        proof {
            assert(r.output() =~= Seq::<Seq<char>>::empty());
            assert(r.prompts() =~= Seq::<Seq<char>>::empty());
        }
        r
    }

    /// A host that reads from the given input lines and only logs output.
    pub fn scripted(inputs: Vec<String>) -> (r: Host)
        ensures
            r.wf(),
            !r.live(),
            r.inputs() == texts(inputs@),
            r.cursor() == 0,
            r.output() == Seq::<Seq<char>>::empty(),
            r.prompts() == Seq::<Seq<char>>::empty(),
    {
        let r = Host { live: false, inputs, cursor: 0, output: Vec::new(), prompts: Vec::new() };
        proof {
            assert(r.output() =~= Seq::<Seq<char>>::empty());
            assert(r.prompts() =~= Seq::<Seq<char>>::empty());
        }
        r
    }

    /// The printed lines, for a driver to read back.
    pub fn output_lines(&self) -> (r: &Vec<String>)
        ensures
            texts(r@) == self.output(),
    {
        &self.output
    }

    /// Prints one line: it is appended to the log and, on a live host,
    /// written to standard output.
    pub fn emit_line(&mut self, s: String)
        requires
            old(self).wf(),
        ensures
            final(self).wf(),
            final(self).output() == old(self).output().push(s@),
            final(self).live() == old(self).live(),
            final(self).inputs() == old(self).inputs(),
            final(self).cursor() == old(self).cursor(),
            final(self).prompts() == old(self).prompts(),
    {
        if self.live {
            write_stdout_line(s.as_str());
        }
        self.output.push(s);
        proof {
            assert(self.output() =~= old(self).output().push(self.output@.last()@));
        }
    }

    /// Shows a prompt: it is appended to the prompt log and, on a live
    /// host, written without a newline.
    pub fn show_prompt(&mut self, s: String)
        requires
            old(self).wf(),
        ensures
            final(self).wf(),
            final(self).prompts() == old(self).prompts().push(s@),
            final(self).live() == old(self).live(),
            final(self).inputs() == old(self).inputs(),
            final(self).cursor() == old(self).cursor(),
            final(self).output() == old(self).output(),
    {
        if self.live {
            write_stdout(s.as_str());
        }
        self.prompts.push(s);
        proof {
            assert(self.prompts() =~= old(self).prompts().push(self.prompts@.last()@));
        }
    }

    /// Reads one line of input. A scripted host yields its next input
    /// line, or nothing once they are exhausted; a live host yields
    /// whatever standard input provided, or nothing on an input error.
    pub fn read_line(&mut self) -> (r: Option<String>)
        requires
            old(self).wf(),
        ensures
            final(self).wf(),
            final(self).live() == old(self).live(),
            final(self).inputs() == old(self).inputs(),
            final(self).output() == old(self).output(),
            final(self).prompts() == old(self).prompts(),
            !old(self).live() ==> {
                &&& if old(self).cursor() < old(self).inputs().len() {
                    r is Some && r->Some_0@ == old(self).inputs()[old(self).cursor()]
                        && final(self).cursor() == old(self).cursor() + 1
                } else {
                    r is None && final(self).cursor() == old(self).cursor()
                }
            },
            old(self).live() ==> final(self).cursor() == old(self).cursor(),
    {
        if self.live {
            read_stdin_line()
        } else {
            if self.cursor < self.inputs.len() {
                let line = self.inputs[self.cursor].clone();
                self.cursor += 1;
                Some(line)
            } else {
                None
            }
        }
    }
}

} // verus!
