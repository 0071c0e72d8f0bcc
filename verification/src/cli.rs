//! The command line: what the program is asked to do.
//!
//! Nothing here reads arguments, files or the terminal. The caller hands
//! over the arguments and gets back the job to perform; the library
//! compiles, the caller reads, writes and runs.

use vstd::prelude::*;
use crate::compiler::{compile, compiled, Outcome};
use crate::flags::{flag_index, scanned, FlagRegistry, FlagView, Scan};
use crate::source::{source_views, SourceFile};
use crate::text::{option_view, string_views};

verus! {

/// The command-line interface of the compiler.
#[derive(Debug)]
pub struct CLI {
    /// The arguments that are no flags, the program's own name first.
    pub args: Vec<String>,
    pub flags: FlagRegistry,
    pub name: String,
    pub exe_name: String,
    pub version: String,
    /// The extension of source files.
    pub ext: String,
}

/// The mathematical value of a [`CLI`].
pub ghost struct CliView {
    pub args: Seq<Seq<char>>,
    pub flags: Seq<FlagView>,
    pub name: Seq<char>,
    pub exe_name: Seq<char>,
    pub version: Seq<char>,
    pub ext: Seq<char>,
}

impl View for CLI {
    type V = CliView;

    open spec fn view(&self) -> CliView {
        CliView {
            args: string_views(self.args@),
            flags: self.flags@,
            name: self.name@,
            exe_name: self.exe_name@,
            version: self.version@,
            ext: self.ext@,
        }
    }
}

/// What the command line asks for.
#[derive(Debug)]
pub enum Job {
    /// Compile this text and run the result.
    Evaluate { code: String },
    /// Read the file `input`, compile it and run the result.
    Run { input: String },
    /// Read the file `input`, compile it and write the result to the file
    /// `output`, made executable.
    Build { input: String, output: String },
    /// Print how the program is used.
    Usage,
    /// Report a misuse of the command line and stop.
    Refuse { message: String, comment: String },
}

/// The mathematical value of a [`Job`].
pub ghost enum JobView {
    Evaluate { code: Seq<char> },
    Run { input: Seq<char> },
    Build { input: Seq<char>, output: Seq<char> },
    Usage,
    Refuse { message: Seq<char>, comment: Seq<char> },
}

impl View for Job {
    type V = JobView;

    open spec fn view(&self) -> JobView {
        match *self {
            Job::Evaluate { code } => JobView::Evaluate { code: code@ },
            Job::Run { input } => JobView::Run { input: input@ },
            Job::Build { input, output } => JobView::Build { input: input@, output: output@ },
            Job::Usage => JobView::Usage,
            Job::Refuse { message, comment } => JobView::Refuse {
                message: message@,
                comment: comment@,
            },
        }
    }
}

/// The flags of the compiler added to `flags`: `-e` with a value, `-h`
/// and `--help` without.
pub open spec fn registered(flags: Seq<FlagView>) -> Seq<FlagView> {
    flags.push(FlagView { name: "-e"@, takes_value: true, triggered: false, value: None }).push(
        FlagView { name: "-h"@, takes_value: false, triggered: false, value: None },
    ).push(FlagView { name: "--help"@, takes_value: false, triggered: false, value: None })
}

/// The job for a command line that has been read. `-e` asks to evaluate
/// its value. Without it the first argument behind the program's name is
/// the input and the second, if there is one, the output.
pub open spec fn planned(flags: Seq<FlagView>, positional: Seq<Seq<char>>) -> JobView {
    let evaluate = match flag_index(flags, "-e"@) {
        Some(i) => if flags[i].triggered {
            Some(flags[i].value)
        } else {
            None
        },
        None => None,
    };
    match evaluate {
        Some(Some(code)) => JobView::Evaluate { code },
        Some(None) => JobView::Refuse {
            message: "No value passed after -e flag"@,
            comment: "You can write code that has to be evaluated after the -e flag"@,
        },
        None => if positional.len() >= 3 {
            JobView::Build { input: positional[1], output: positional[2] }
        } else if positional.len() >= 2 {
            JobView::Run { input: positional[1] }
        } else {
            JobView::Usage
        },
    }
}

/// A line of the usage text: `text` as it is, then `dimmed` in a fainter
/// tone.
#[derive(Debug)]
pub struct UsageLine {
    pub text: String,
    pub dimmed: String,
}

/// The views of the lines of a usage text.
pub open spec fn usage_views(lines: Seq<UsageLine>) -> Seq<(Seq<char>, Seq<char>)> {
    lines.map_values(|l: UsageLine| (l.text@, l.dimmed@))
}

/// The usage text of a program called `name`, started as `exe_name`, of
/// version `version`, whose source files end in `ext`.
pub open spec fn usage_text(cli: CliView) -> Seq<(Seq<char>, Seq<char>)> {
    seq![
        (cli.name + "'s compiler"@, Seq::empty()),
        ("Version "@ + cli.version + "\n"@, Seq::empty()),
        ("USAGE:\t\t\t\tEXAMPLE:"@, Seq::empty()),
        (Seq::empty(), "For evaluation:"@),
        ("\t"@ + cli.exe_name + " [INPUT]\t\t"@, cli.exe_name + " foo"@ + cli.ext),
        (
            "\t"@ + cli.exe_name + " -e [EXPR]\t\t"@,
            cli.exe_name + " -e \"\\$echo Hello World\\$\""@,
        ),
        (Seq::empty(), "For compiling:"@),
        (
            "\t"@ + cli.exe_name + " [INPUT] [OUTPUT]\t"@,
            cli.exe_name + " foo"@ + cli.ext + " bar"@ + cli.ext,
        ),
    ]
}

impl CLI {
    /// The interface of the compiler, before any command line is read.
    pub fn new() -> (cli: CLI)
        ensures
            cli@ == (CliView {
                args: Seq::empty(),
                flags: Seq::empty(),
                name: "Amber"@,
                exe_name: "amber"@,
                version: "0.1.0"@,
                ext: ".amber"@,
            }),
    {
        let cli = CLI {
            args: Vec::new(),
            flags: FlagRegistry::new(),
            name: String::from_str("Amber"),
            exe_name: String::from_str("amber"),
            version: String::from_str("0.1.0"),
            ext: String::from_str(".amber"),
        };
        assert(cli@.args =~= Seq::<Seq<char>>::empty());
        cli
    }

    /// Reads the command line `arguments`, the program's own name first,
    /// and says what is to be done.
    pub fn run(&mut self, arguments: &Vec<String>) -> (job: Job)
        ensures
            ({
                let scan = scanned(
                    Scan {
                        flags: registered(old(self)@.flags),
                        positional: Seq::empty(),
                        pending: None,
                    },
                    string_views(arguments@),
                );
                &&& final(self)@ == (CliView {
                    args: scan.positional,
                    flags: scan.flags,
                    ..old(self)@
                })
                &&& job@ == planned(scan.flags, scan.positional)
            }),
    {
        self.flags.register("-e", true);
        self.flags.register("-h", false);
        self.flags.register("--help", false);
        self.args = self.flags.parse(arguments);
        let ghost words = string_views(self.args@);
        // Check all flags
        if self.flags.flag_triggered("-e") {
            match &self.flags.get_flag("-e").unwrap().value {
                Some(code) => Job::Evaluate { code: code.clone() },
                None => Job::Refuse {
                    message: String::from_str("No value passed after -e flag"),
                    comment: String::from_str(
                        "You can write code that has to be evaluated after the -e flag",
                    ),
                },
            }
        } else if self.args.len() >= 2 {
            let input = self.args[1].clone();
            assert(words[1] == input@);
            if self.args.len() >= 3 {
                let output = self.args[2].clone();
                assert(words[2] == output@);
                Job::Build { input, output }
            } else {
                Job::Run { input }
            }
        } else {
            Job::Usage
        }
    }

    /// Compiles `code`, found at `path` (`None` for inline text), with
    /// `sources` as the files at hand.
    pub fn compile(&self, code: &str, path: Option<String>, sources: &Vec<SourceFile>) -> (outcome: Outcome)
        ensures
            outcome@ == compiled(code@, option_view(path), source_views(sources@)),
    {
        compile(code, path, sources)
    }

    /// The usage text, line by line.
    pub fn usage(&self) -> (lines: Vec<UsageLine>)
        ensures
            usage_views(lines@) == usage_text(self@),
    {
        let exe = self.exe_name.as_str();
        let ext = self.ext.as_str();
        let mut lines: Vec<UsageLine> = Vec::new();
        lines.push(
            UsageLine { text: self.name.clone().concat("'s compiler"), dimmed: String::new() },
        );
        lines.push(
            UsageLine {
                text: String::from_str("Version ").concat(self.version.as_str()).concat("\n"),
                dimmed: String::new(),
            },
        );
        lines.push(
            UsageLine { text: String::from_str("USAGE:\t\t\t\tEXAMPLE:"), dimmed: String::new() },
        );
        lines.push(UsageLine { text: String::new(), dimmed: String::from_str("For evaluation:") });
        lines.push(
            UsageLine {
                text: String::from_str("\t").concat(exe).concat(" [INPUT]\t\t"),
                dimmed: self.exe_name.clone().concat(" foo").concat(ext),
            },
        );
        lines.push(
            UsageLine {
                text: String::from_str("\t").concat(exe).concat(" -e [EXPR]\t\t"),
                dimmed: self.exe_name.clone().concat(" -e \"\\$echo Hello World\\$\""),
            },
        );
        lines.push(UsageLine { text: String::new(), dimmed: String::from_str("For compiling:") });
        lines.push(
            UsageLine {
                text: String::from_str("\t").concat(exe).concat(" [INPUT] [OUTPUT]\t"),
                dimmed: self.exe_name.clone().concat(" foo").concat(ext).concat(" bar").concat(ext),
            },
        );
        assert(usage_views(lines@) =~= usage_text(self@));
        lines
    }
}

} // verus!
