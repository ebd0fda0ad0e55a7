//! The command line: what `openbiz` is asked to do when it is not serving.
//!
//! Four forms, no flags, no subcommand tree, so the parser is written out by hand. Every argument
//! a command takes is required, and anything left over is refused rather than ignored: the
//! likeliest cause of a stray argument is an unquoted path with a space in it, and half a path
//! silently becoming the filename is how a backup ends up somewhere nobody looks for it.

use vstd::prelude::*;

use crate::config::{blank, is_blank};
use crate::text::{decimal, push_count, push_str, same_text, string_of};

verus! {

/// A process argument as it was given: text, or the bytes of one that is not valid Unicode. A
/// file may be named by either; everything else must be text.
#[derive(Debug, Clone, PartialEq, Eq)]
pub enum Argument {
    /// An argument that is valid Unicode.
    Text(String),
    /// An argument that is not, as the bytes the operating system gave.
    Raw(Vec<u8>),
}

/// An argument as plain values.
pub enum ArgView {
    Text(Seq<char>),
    Raw(Seq<u8>),
}

/// An argument as plain values.
pub open spec fn arg_view(arg: Argument) -> ArgView {
    match arg {
        Argument::Text(text) => ArgView::Text(text@),
        Argument::Raw(bytes) => ArgView::Raw(bytes@),
    }
}

/// What the operator asked `openbiz` to do.
#[derive(Debug, Clone, PartialEq, Eq)]
pub enum Command {
    /// Run the server. What happens with no arguments at all, which is the common case.
    Serve,
    /// Write a backup of the configured store to a file.
    Backup {
        /// Where to write it. Must not already exist.
        file: Argument,
    },
    /// Reconstruct the configured store from a backup file.
    Restore {
        /// The backup to read.
        file: Argument,
    },
    /// Propose the statements in a file as a change to a vocabulary. Nothing is written to it.
    Import {
        /// The IRI of the vocabulary graph the change is proposed against.
        graph: String,
        /// The RDF file to read.
        file: Argument,
    },
    /// Propose the statements in a file as a removal from a vocabulary. Nothing is written to it.
    Retract {
        /// The IRI of the vocabulary graph the removal is proposed against.
        graph: String,
        /// The RDF file naming the statements to remove.
        file: Argument,
    },
    /// Report what a vocabulary holds, in SKOS terms. Reads and nothing else.
    Inspect {
        /// The IRI of the vocabulary graph to read.
        graph: String,
    },
    /// Report what is above one concept in the hierarchy, and why. Reads and nothing else.
    Ancestors {
        /// The IRI of the vocabulary graph to read.
        graph: String,
        /// The IRI of the concept to walk up from.
        concept: String,
    },
    /// List every proposed change the store holds.
    Candidates,
    /// Show one proposed change, with the statements it would add.
    Show {
        /// The candidate's identifier.
        id: String,
    },
    /// Apply a proposed change to its target vocabulary.
    Approve {
        /// The candidate's identifier.
        id: String,
    },
    /// Refuse a proposed change. Its statements stay staged and the vocabulary is untouched.
    Reject {
        /// The candidate's identifier.
        id: String,
    },
    /// Print [`USAGE`] and exit successfully.
    Help,
}

/// What to tell an operator who got the arguments wrong, and what `openbiz help` prints.
pub const USAGE: &'static str = "openbiz — self-hosted taxonomy, ontology, and thesaurus management

Usage:
  openbiz                    start the server
  openbiz backup <file>      write a backup of the store to <file>
  openbiz restore <file>     rebuild an empty store from a backup
  openbiz import <graph> <file>
                             propose the file's statements as additions to <graph>
  openbiz retract <graph> <file>
                             propose the file's statements as removals from <graph>
  openbiz inspect <graph>    report what <graph> holds in SKOS terms, and why
  openbiz ancestors <graph> <concept>
                             report what is above <concept> in the hierarchy, and why
  openbiz candidates         list the proposed changes waiting for a decision
  openbiz candidate <id>     show one proposed change and the statements it would add
  openbiz approve <id>       apply a proposed change to its vocabulary
  openbiz reject <id>        refuse a proposed change
  openbiz help               show this

A backup is the whole store as N-Quads: every vocabulary and OpenBiz's own registry, in a
W3C-standard syntax any conforming tool can read. Restore refuses a store that is not empty, so
restore into a fresh data directory and point the server at that.

Neither import nor retract writes to a vocabulary. Each reads the file — the syntax is taken from
the file extension — stages the statements where you can read them, and records who proposed what
and why. `openbiz approve` is what applies them, and it records who approved them. Approving and
rejecting need a name to record: OPENBIZ_ACTOR if it is set, otherwise USER or LOGNAME.

Ancestors only reads. It walks `skos:broaderTransitive` up from one concept and prints every
concept above it with the path that reached it, which for a link nobody stated is the derivation
S24 licensed. The closure is never stored — a legal SKOS hierarchy can be arbitrarily deep, and a
cycle in it is legal too — so this walks it on demand and says so if it stops at its bound.

Inspect only reads. It reports the concepts, concept schemes, and collections a vocabulary holds,
including the ones no statement typed — SKOS itself says a resource with concepts in it is a
concept scheme — and it names the specification statement behind every fact it inferred. It
separates a violated SKOS integrity condition, which makes a graph not a SKOS vocabulary, from
something merely ill-formed, which is our judgement and says so.

Retract refuses statements the vocabulary does not already hold, and approving a retraction is
refused if the vocabulary has changed underneath it — a removal that quietly takes away less than
was reviewed is worse than one that fails.

Every command needs the store to itself; stop the server first.

The store's location comes from the same configuration the server uses:
  OPENBIZ_DATA_DIR, or data_dir in openbiz.toml.";

/// Environment variable naming who is responsible for a decision taken on the command line.
pub const ACTOR_VARIABLE: &'static str = "OPENBIZ_ACTOR";

/// What `import` and `retract` need first.
pub const PROPOSE_AGAINST: &'static str = "the IRI of the vocabulary to propose against";

/// What `inspect` and `ancestors` need first.
pub const A_VOCABULARY: &'static str = "the IRI of a vocabulary to read";

/// What `ancestors` needs second.
pub const A_CONCEPT: &'static str = "the IRI of a concept to walk up from";

/// What `candidate` needs.
pub const TO_SHOW: &'static str = "a candidate to show";

/// What `approve` needs.
pub const TO_APPROVE: &'static str = "a candidate to approve";

/// What `reject` needs.
pub const TO_REJECT: &'static str = "a candidate to reject";

/// The operator's arguments did not name something this build can do.
#[derive(Debug, Clone, PartialEq, Eq)]
#[non_exhaustive]
pub enum ArgsError {
    /// The first argument is not one of our commands. Refused rather than treated as "serve,
    /// and ignore the rest".
    UnknownCommand(String),
    /// A command that needs a file was given none.
    MissingFile {
        /// The command that was named.
        command: &'static str,
        /// What it would have done with the file, for the message.
        verb: &'static str,
    },
    /// More arguments than the command takes.
    TooManyArguments {
        /// The command that was named.
        command: &'static str,
        /// How many arguments were left over.
        extra: usize,
    },
    /// A command that needs an argument was given none.
    MissingArgument {
        /// The command that was named.
        command: &'static str,
        /// What was missing, phrased to complete the sentence "needs ...".
        what: &'static str,
    },
    /// An argument was not valid text.
    NotUnicode,
}

/// An argument a command takes: a file, with what is done to it, or a piece of text, with what
/// it is.
pub enum Slot {
    File(Seq<char>),
    Text(Seq<char>),
}

/// A refusal, as the facts it reports.
pub enum Refusal {
    Unknown(Seq<char>),
    NoFile(Seq<char>, Seq<char>),
    TooMany(Seq<char>, nat),
    NoArgument(Seq<char>, Seq<char>),
    NotText,
}

/// The arguments as plain values.
pub open spec fn arg_views(args: Seq<Argument>) -> Seq<ArgView> {
    args.map_values(|a: Argument| arg_view(a))
}

/// The command a first argument names: `--help` and `-h` are `help`, and every other word is
/// itself.
pub open spec fn command_named(first: Seq<char>) -> Seq<char> {
    if first == "help"@ || first == "--help"@ || first == "-h"@ {
        "help"@
    } else {
        first
    }
}

/// The arguments each command takes, in order, or `None` for a word that is not a command.
pub open spec fn slots_of(name: Seq<char>) -> Option<Seq<Slot>> {
    if name == "help"@ {
        Some(seq![])
    } else if name == "backup"@ {
        Some(seq![Slot::File("write"@)])
    } else if name == "restore"@ {
        Some(seq![Slot::File("read"@)])
    } else if name == "import"@ {
        Some(seq![Slot::Text(PROPOSE_AGAINST@), Slot::File("read"@)])
    } else if name == "retract"@ {
        Some(seq![Slot::Text(PROPOSE_AGAINST@), Slot::File("read"@)])
    } else if name == "inspect"@ {
        Some(seq![Slot::Text(A_VOCABULARY@)])
    } else if name == "ancestors"@ {
        Some(seq![Slot::Text(A_VOCABULARY@), Slot::Text(A_CONCEPT@)])
    } else if name == "candidates"@ {
        Some(seq![])
    } else if name == "candidate"@ {
        Some(seq![Slot::Text(TO_SHOW@)])
    } else if name == "approve"@ {
        Some(seq![Slot::Text(TO_APPROVE@)])
    } else if name == "reject"@ {
        Some(seq![Slot::Text(TO_REJECT@)])
    } else {
        None
    }
}

/// The argument at `at`, for a command named `name` that needs it as `slot`.
pub open spec fn take(name: Seq<char>, slot: Slot, args: Seq<ArgView>, at: int) -> Result<
    ArgView,
    Refusal,
> {
    if at >= args.len() {
        Err(
            match slot {
                Slot::File(verb) => Refusal::NoFile(name, verb),
                Slot::Text(what) => Refusal::NoArgument(name, what),
            },
        )
    } else {
        match (slot, args[at]) {
            (Slot::File(_), value) => Ok(value),
            (Slot::Text(_), ArgView::Text(value)) => Ok(ArgView::Text(value)),
            (Slot::Text(_), ArgView::Raw(_)) => Err(Refusal::NotText),
        }
    }
}

/// The arguments from `at` on, taken for `slots` in order; the first refusal wins.
pub open spec fn fill(
    name: Seq<char>,
    slots: Seq<Slot>,
    args: Seq<ArgView>,
    at: int,
) -> Result<Seq<ArgView>, Refusal>
    decreases slots.len(),
{
    if slots.len() == 0 {
        Ok(seq![])
    } else {
        match take(name, slots[0], args, at) {
            Err(refusal) => Err(refusal),
            Ok(value) => match fill(name, slots.drop_first(), args, at + 1) {
                Err(refusal) => Err(refusal),
                Ok(rest) => Ok(seq![value] + rest),
            },
        }
    }
}

/// A command that takes nothing takes nothing from the arguments.
proof fn lemma_fill_none(name: Seq<char>, args: Seq<ArgView>, at: int)
    ensures
        fill(name, seq![], args, at) == Ok::<Seq<ArgView>, Refusal>(seq![]),
{
}

/// A command that takes one argument takes it from `at`.
proof fn lemma_fill_one(name: Seq<char>, slot: Slot, args: Seq<ArgView>, at: int)
    ensures
        fill(name, seq![slot], args, at) == match take(name, slot, args, at) {
            Err(refusal) => Err(refusal),
            Ok(value) => Ok(seq![value]),
        },
{
    assert(seq![slot].drop_first() =~= seq![]);
    lemma_fill_none(name, args, at + 1);
    match take(name, slot, args, at) {
        Err(refusal) => {},
        Ok(value) => {
            assert(seq![value] + seq![] =~= seq![value]);
        },
    }
}

/// A command that takes two arguments takes them from `at` and the one after it.
proof fn lemma_fill_two(name: Seq<char>, first: Slot, second: Slot, args: Seq<ArgView>, at: int)
    ensures
        fill(name, seq![first, second], args, at) == match take(name, first, args, at) {
            Err(refusal) => Err(refusal),
            Ok(value) => match take(name, second, args, at + 1) {
                Err(refusal) => Err(refusal),
                Ok(next) => Ok(seq![value, next]),
            },
        },
{
    assert(seq![first, second].drop_first() =~= seq![second]);
    lemma_fill_one(name, second, args, at + 1);
    match take(name, first, args, at) {
        Err(refusal) => {},
        Ok(value) => match take(name, second, args, at + 1) {
            Err(refusal) => {},
            Ok(next) => {
                assert(seq![value] + seq![next] =~= seq![value, next]);
            },
        },
    }
}

/// What the arguments ask for: the command's name and the arguments it was given, or why they
/// were refused. No arguments at all is the server, named by nothing.
pub open spec fn parsed(args: Seq<ArgView>) -> Result<(Seq<char>, Seq<ArgView>), Refusal> {
    if args.len() == 0 {
        Ok((seq![], seq![]))
    } else {
        match args[0] {
            ArgView::Raw(_) => Err(Refusal::NotText),
            ArgView::Text(first) => {
                let name = command_named(first);
                match slots_of(name) {
                    None => Err(Refusal::Unknown(first)),
                    Some(slots) => match fill(name, slots, args, 1) {
                        Err(refusal) => Err(refusal),
                        Ok(values) => if args.len() > slots.len() + 1 {
                            Err(Refusal::TooMany(name, (args.len() - slots.len() - 1) as nat))
                        } else {
                            Ok((name, values))
                        },
                    },
                }
            },
        }
    }
}

/// A command as its name and the arguments it carries, in the order they are given.
pub open spec fn command_view(command: Command) -> (Seq<char>, Seq<ArgView>) {
    match command {
        Command::Serve => (seq![], seq![]),
        Command::Backup { file } => ("backup"@, seq![arg_view(file)]),
        Command::Restore { file } => ("restore"@, seq![arg_view(file)]),
        Command::Import { graph, file } => ("import"@, seq![ArgView::Text(graph@), arg_view(file)]),
        Command::Retract { graph, file } => ("retract"@, seq![ArgView::Text(graph@), arg_view(file)]),
        Command::Inspect { graph } => ("inspect"@, seq![ArgView::Text(graph@)]),
        Command::Ancestors { graph, concept } => (
            "ancestors"@,
            seq![ArgView::Text(graph@), ArgView::Text(concept@)],
        ),
        Command::Candidates => ("candidates"@, seq![]),
        Command::Show { id } => ("candidate"@, seq![ArgView::Text(id@)]),
        Command::Approve { id } => ("approve"@, seq![ArgView::Text(id@)]),
        Command::Reject { id } => ("reject"@, seq![ArgView::Text(id@)]),
        Command::Help => ("help"@, seq![]),
    }
}

/// A refusal as the facts it reports.
pub open spec fn refusal_of(error: ArgsError) -> Refusal {
    match error {
        ArgsError::UnknownCommand(word) => Refusal::Unknown(word@),
        ArgsError::MissingFile { command, verb } => Refusal::NoFile(command@, verb@),
        ArgsError::TooManyArguments { command, extra } => Refusal::TooMany(command@, extra as nat),
        ArgsError::MissingArgument { command, what } => Refusal::NoArgument(command@, what@),
        ArgsError::NotUnicode => Refusal::NotText,
    }
}

/// The Debug rendering of a string: quoted, with what cannot stand in a string literal escaped.
pub uninterp spec fn debug_quoted(s: Seq<char>) -> Seq<char>;

/// A character that a quoted string carries as it is: printable ASCII other than the quote and
/// the backslash.
pub open spec fn plain(c: char) -> bool {
    ' ' <= c <= '~' && c != '"' && c != '\\'
}

/// `s` as `{:?}` writes it, through the standard library's `Debug` for `str`. That writes the
/// string between double quotes, escaping each character as `char::escape_debug` does; printable
/// ASCII other than the quote and the backslash is written as it is. What it makes of the other
/// characters is not stated here.
#[verifier::external_body]
pub(crate) fn quoted(s: &str) -> (q: String)
    ensures
        q@ == debug_quoted(s@),
        (forall|i: int| 0 <= i < s@.len() ==> plain(#[trigger] s@[i])) ==> q@ == seq!['"'] + s@
            + seq!['"'],
{
    format!("{:?}", s)
}

/// What a refusal says, naming the command and what it needed.
pub open spec fn refusal_message(error: ArgsError) -> Seq<char> {
    match error {
        ArgsError::UnknownCommand(word) => debug_quoted(word@) + " is not an openbiz command"@,
        ArgsError::MissingFile { command, verb } => "`openbiz "@ + command@ + "` needs a file to "@
            + verb@,
        ArgsError::TooManyArguments { command, extra } => "`openbiz "@ + command@
            + "` takes one file, and "@ + decimal(extra as nat) + " more argument(s) were given"@,
        ArgsError::MissingArgument { command, what } => "`openbiz "@ + command@ + "` needs "@
            + what@,
        ArgsError::NotUnicode => "an argument is not valid Unicode, so it cannot be a command"@,
    }
}

impl ArgsError {
    /// What to tell the operator.
    pub fn to_string(&self) -> (message: String)
        ensures
            message@ == refusal_message(*self),
            self matches ArgsError::UnknownCommand(word) ==> ((forall|i: int|
                0 <= i < word@.len() ==> plain(#[trigger] word@[i])) ==> message@ == seq!['"']
                + word@ + seq!['"'] + " is not an openbiz command"@),
    {
        match self {
            ArgsError::UnknownCommand(word) => {
                let mut out = quoted(word.as_str());
                push_str(&mut out, " is not an openbiz command");
                out
            },
            ArgsError::MissingFile { command, verb } => {
                let mut out = string_of("`openbiz ");
                push_str(&mut out, command);
                push_str(&mut out, "` needs a file to ");
                push_str(&mut out, verb);
                out
            },
            ArgsError::TooManyArguments { command, extra } => {
                let mut out = string_of("`openbiz ");
                push_str(&mut out, command);
                push_str(&mut out, "` takes one file, and ");
                push_count(&mut out, *extra);
                push_str(&mut out, " more argument(s) were given");
                out
            },
            ArgsError::MissingArgument { command, what } => {
                let mut out = string_of("`openbiz ");
                push_str(&mut out, command);
                push_str(&mut out, "` needs ");
                push_str(&mut out, what);
                out
            },
            ArgsError::NotUnicode => string_of(
                "an argument is not valid Unicode, so it cannot be a command",
            ),
        }
    }
}

/// A copy of `bytes`.
fn copy_bytes(bytes: &Vec<u8>) -> (copy: Vec<u8>)
    ensures
        copy@ == bytes@,
{
    let mut copy: Vec<u8> = Vec::new();
    let mut i: usize = 0;
    while i < bytes.len()
        invariant
            i <= bytes@.len(),
            copy@ == bytes@.take(i as int),
        decreases bytes.len() - i,
    {
        copy.push(bytes[i]);
        assert(bytes@.take(i + 1 as int) =~= bytes@.take(i as int).push(bytes@[i as int]));
        i = i + 1;
    }
    assert(bytes@.take(bytes@.len() as int) =~= bytes@);
    copy
}

impl Command {
    /// Read a command out of the process arguments, excluding the program name. A file may be
    /// named by an argument that is not valid Unicode; nothing else may.
    ///
    /// No arguments is the server, and nothing else is: a mistyped command is refused, a missing
    /// argument is refused naming the command and what it needed, and an argument left over is
    /// refused with how many there were.
    pub fn parse(args: Vec<Argument>) -> (command: Result<Command, ArgsError>)
        ensures
            parsed(arg_views(args@)) == match command {
                Ok(c) => Ok(command_view(c)),
                Err(e) => Err(refusal_of(e)),
            },
            command matches Ok(Command::Serve) <==> args@.len() == 0,
            command matches Ok(c) ==> args@.len() == command_view(c).1.len() + if c is Serve {
                0int
            } else {
                1int
            },
    {
        let ghost a = arg_views(args@);
        if args.len() == 0 {
            return Ok(Command::Serve);
        }
        let first: &str = match &args[0] {
            Argument::Raw(_) => return Err(ArgsError::NotUnicode),
            Argument::Text(first) => first.as_str(),
        };
        assert(a[0] == ArgView::Text(first@));
        if same_text(first, "help") || same_text(first, "--help") || same_text(first, "-h") {
            proof { lemma_fill_none("help"@, a, 1); }
            return Self::no_more(Command::Help, "help", &args, 1);
        }
        if same_text(first, "backup") {
            proof {
                lemma_fill_one("backup"@, Slot::File("write"@), a, 1);
            }
            let file = match Self::one_file("backup", "write", &args, 1) {
                Ok(file) => file,
                Err(e) => return Err(e),
            };
            return Self::no_more(Command::Backup { file }, "backup", &args, 2);
        }
        if same_text(first, "restore") {
            proof {
                lemma_fill_one("restore"@, Slot::File("read"@), a, 1);
            }
            let file = match Self::one_file("restore", "read", &args, 1) {
                Ok(file) => file,
                Err(e) => return Err(e),
            };
            return Self::no_more(Command::Restore { file }, "restore", &args, 2);
        }
        if same_text(first, "import") {
            proof {
                lemma_fill_two("import"@, Slot::Text(PROPOSE_AGAINST@), Slot::File("read"@), a, 1);
            }
            let graph = match Self::text("import", PROPOSE_AGAINST, &args, 1) {
                Ok(graph) => graph,
                Err(e) => return Err(e),
            };
            let file = match Self::one_file("import", "read", &args, 2) {
                Ok(file) => file,
                Err(e) => return Err(e),
            };
            return Self::no_more(Command::Import { graph, file }, "import", &args, 3);
        }
        if same_text(first, "retract") {
            proof {
                lemma_fill_two("retract"@, Slot::Text(PROPOSE_AGAINST@), Slot::File("read"@), a, 1);
            }
            let graph = match Self::text("retract", PROPOSE_AGAINST, &args, 1) {
                Ok(graph) => graph,
                Err(e) => return Err(e),
            };
            let file = match Self::one_file("retract", "read", &args, 2) {
                Ok(file) => file,
                Err(e) => return Err(e),
            };
            return Self::no_more(Command::Retract { graph, file }, "retract", &args, 3);
        }
        if same_text(first, "inspect") {
            proof {
                lemma_fill_one("inspect"@, Slot::Text(A_VOCABULARY@), a, 1);
            }
            let graph = match Self::text("inspect", A_VOCABULARY, &args, 1) {
                Ok(graph) => graph,
                Err(e) => return Err(e),
            };
            return Self::no_more(Command::Inspect { graph }, "inspect", &args, 2);
        }
        if same_text(first, "ancestors") {
            proof {
                lemma_fill_two("ancestors"@, Slot::Text(A_VOCABULARY@), Slot::Text(A_CONCEPT@), a, 1);
            }
            let graph = match Self::text("ancestors", A_VOCABULARY, &args, 1) {
                Ok(graph) => graph,
                Err(e) => return Err(e),
            };
            let concept = match Self::text("ancestors", A_CONCEPT, &args, 2) {
                Ok(concept) => concept,
                Err(e) => return Err(e),
            };
            return Self::no_more(Command::Ancestors { graph, concept }, "ancestors", &args, 3);
        }
        if same_text(first, "candidates") {
            proof {
                lemma_fill_none("candidates"@, a, 1);
            }
            return Self::no_more(Command::Candidates, "candidates", &args, 1);
        }
        if same_text(first, "candidate") {
            proof {
                lemma_fill_one("candidate"@, Slot::Text(TO_SHOW@), a, 1);
            }
            let id = match Self::text("candidate", TO_SHOW, &args, 1) {
                Ok(id) => id,
                Err(e) => return Err(e),
            };
            return Self::no_more(Command::Show { id }, "candidate", &args, 2);
        }
        if same_text(first, "approve") {
            proof {
                lemma_fill_one("approve"@, Slot::Text(TO_APPROVE@), a, 1);
            }
            let id = match Self::text("approve", TO_APPROVE, &args, 1) {
                Ok(id) => id,
                Err(e) => return Err(e),
            };
            return Self::no_more(Command::Approve { id }, "approve", &args, 2);
        }
        if same_text(first, "reject") {
            proof {
                lemma_fill_one("reject"@, Slot::Text(TO_REJECT@), a, 1);
            }
            let id = match Self::text("reject", TO_REJECT, &args, 1) {
                Ok(id) => id,
                Err(e) => return Err(e),
            };
            return Self::no_more(Command::Reject { id }, "reject", &args, 2);
        }
        Err(ArgsError::UnknownCommand(first.to_owned()))
    }

    /// Take the single file argument a command requires, at `at`.
    fn one_file(command: &'static str, verb: &'static str, args: &Vec<Argument>, at: usize) -> (file:
        Result<Argument, ArgsError>)
        ensures
            take(command@, Slot::File(verb@), arg_views(args@), at as int) == match file {
                Ok(f) => Ok(arg_view(f)),
                Err(e) => Err(refusal_of(e)),
            },
    {
        if at >= args.len() {
            return Err(ArgsError::MissingFile { command, verb });
        }
        match &args[at] {
            Argument::Text(file) => Ok(Argument::Text(string_of(file.as_str()))),
            Argument::Raw(bytes) => Ok(Argument::Raw(copy_bytes(bytes))),
        }
    }

    /// Take a textual argument a command requires, at `at`.
    fn text(command: &'static str, what: &'static str, args: &Vec<Argument>, at: usize) -> (text:
        Result<String, ArgsError>)
        ensures
            take(command@, Slot::Text(what@), arg_views(args@), at as int) == match text {
                Ok(t) => Ok(ArgView::Text(t@)),
                Err(e) => Err(refusal_of(e)),
            },
    {
        if at >= args.len() {
            return Err(ArgsError::MissingArgument { command, what });
        }
        match &args[at] {
            Argument::Text(text) => Ok(string_of(text.as_str())),
            Argument::Raw(_) => Err(ArgsError::NotUnicode),
        }
    }

    /// Refuse anything past the first `used` arguments rather than ignoring it.
    fn no_more(command: Command, name: &'static str, args: &Vec<Argument>, used: usize) -> (checked:
        Result<Command, ArgsError>)
        requires
            used <= args@.len(),
        ensures
            args@.len() > used ==> checked == Err::<Command, ArgsError>(
                ArgsError::TooManyArguments { command: name, extra: (args@.len() - used) as usize },
            ),
            args@.len() == used ==> checked == Ok::<Command, ArgsError>(command),
    {
        let extra = args.len() - used;
        if extra > 0 {
            return Err(ArgsError::TooManyArguments { command: name, extra });
        }
        Ok(command)
    }
}

/// `count` statements, as a phrase.
pub open spec fn statements(count: nat) -> Seq<char> {
    if count == 1 {
        "1 statement"@
    } else {
        decimal(count) + " statements"@
    }
}

/// What a change would do to its target: both halves when both are present, and a half that is
/// empty left out rather than printed as a zero.
pub open spec fn effect_text(additions: nat, removals: nat) -> Seq<char> {
    if removals == 0 {
        "adds "@ + statements(additions)
    } else if additions == 0 {
        "removes "@ + statements(removals)
    } else {
        "adds "@ + statements(additions) + " and removes "@ + statements(removals)
    }
}

/// Appends `count` statements, as a phrase, to `out`.
fn push_statements(out: &mut String, count: u64)
    ensures
        final(out)@ == old(out)@ + statements(count as nat),
{
    if count == 1 {
        push_str(out, "1 statement");
    } else {
        crate::text::push_decimal(out, count);
        push_str(out, " statements");
    }
}

/// What a change that adds `additions` statements and removes `removals` would do, in the words
/// a list or a report uses.
pub fn effect(additions: u64, removals: u64) -> (text: String)
    ensures
        text@ == effect_text(additions as nat, removals as nat),
{
    let mut out = String::new();
    if removals == 0 {
        push_str(&mut out, "adds ");
        push_statements(&mut out, additions);
    } else if additions == 0 {
        push_str(&mut out, "removes ");
        push_statements(&mut out, removals);
    } else {
        push_str(&mut out, "adds ");
        push_statements(&mut out, additions);
        push_str(&mut out, " and removes ");
        push_statements(&mut out, removals);
    }
    out
}

/// The first of `candidates` that is set and not blank, as it was set.
pub open spec fn first_present(candidates: Seq<Option<String>>) -> Option<Seq<char>>
    decreases candidates.len(),
{
    if candidates.len() == 0 {
        None
    } else {
        match candidates[0] {
            Some(value) if !is_blank(value@) => Some(value@),
            _ => first_present(candidates.drop_first()),
        }
    }
}

/// Who a change is recorded as made by: the first of `candidates` (the values of
/// `OPENBIZ_ACTOR`, `USER` and `LOGNAME`, in that order) that is set and not blank, unchanged.
/// `None` when every one is unset or blank, and the change then has nobody to record.
pub fn actor(candidates: &Vec<Option<String>>) -> (chosen: Option<String>)
    ensures
        match chosen {
            Some(name) => first_present(candidates@) == Some(name@),
            None => first_present(candidates@) is None,
        },
{
    let mut i: usize = 0;
    assert(candidates@.skip(0) =~= candidates@);
    while i < candidates.len()
        invariant
            i <= candidates@.len(),
            first_present(candidates@) == first_present(candidates@.skip(i as int)),
        decreases candidates.len() - i,
    {
        assert(candidates@.skip(i as int).drop_first() =~= candidates@.skip(i + 1 as int));
        match &candidates[i] {
            Some(value) => {
                if !blank(value.as_str()) {
                    return Some(string_of(value.as_str()));
                }
            },
            None => {},
        }
        i = i + 1;
    }
    None
}

/// The two halves of a change a file can carry.
#[derive(Debug, Clone, Copy, PartialEq, Eq)]
pub enum CandidatePart {
    /// Statements to add.
    Additions,
    /// Statements to remove.
    Removals,
}

/// The command that proposes each half.
pub open spec fn part_command(part: CandidatePart) -> Seq<char> {
    match part {
        CandidatePart::Additions => "import"@,
        CandidatePart::Removals => "retract"@,
    }
}

/// Who a proposal read from a file is recorded as made by: the actor, and the command.
pub open spec fn proposal_agent_text(actor: Seq<char>, part: CandidatePart) -> Seq<char> {
    actor + " (openbiz "@ + part_command(part) + ")"@
}

/// The note a proposal read from a file carries: what was read, from where, in which syntax.
pub open spec fn proposal_note_text(part: CandidatePart, file: Seq<char>, syntax: Seq<char>) -> Seq<char> {
    (match part {
        CandidatePart::Additions => "imported"@,
        CandidatePart::Removals => "retraction read"@,
    }) + " from "@ + file + " as "@ + syntax
}

/// Who a proposal read from a file is recorded as made by: "`actor` (openbiz import)" or
/// "`actor` (openbiz retract)".
pub fn proposal_agent(actor: &str, part: CandidatePart) -> (agent: String)
    ensures
        agent@ == proposal_agent_text(actor@, part),
{
    let mut out = string_of(actor);
    push_str(&mut out, " (openbiz ");
    match part {
        CandidatePart::Additions => push_str(&mut out, "import"),
        CandidatePart::Removals => push_str(&mut out, "retract"),
    }
    push_str(&mut out, ")");
    out
}

/// The note a proposal read from a file carries: "imported from `file` as `syntax`", or
/// "retraction read from `file` as `syntax`".
pub fn proposal_note(part: CandidatePart, file: &str, syntax: &str) -> (note: String)
    ensures
        note@ == proposal_note_text(part, file@, syntax@),
{
    let mut out = match part {
        CandidatePart::Additions => string_of("imported"),
        CandidatePart::Removals => string_of("retraction read"),
    };
    push_str(&mut out, " from ");
    push_str(&mut out, file);
    push_str(&mut out, " as ");
    push_str(&mut out, syntax);
    out
}

/// What is said once a file's statements are proposed: the candidate, what it would do, and how to
/// review, approve or reject it.
pub open spec fn proposed_text(
    id: Seq<char>,
    target: Seq<char>,
    additions: nat,
    removals: nat,
    file: Seq<char>,
    syntax: Seq<char>,
) -> Seq<char> {
    "proposed candidate "@ + id + " against "@ + target + ": "@ + effect_text(additions, removals)
        + " from "@ + file + ", read as "@ + syntax
        + "\nnothing has been written to the vocabulary. Review it with `openbiz candidate "@ + id
        + "`, then `openbiz approve "@ + id + "` or `openbiz reject "@ + id + "`."@
}

/// What `openbiz import` and `openbiz retract` say once the file's statements are staged as
/// candidate `id` against `target`: what the candidate would do, from which file and syntax, that
/// nothing was written, and the commands that review, approve and reject it.
pub fn proposed(id: &str, target: &str, additions: u64, removals: u64, file: &str, syntax: &str) -> (text:
    String)
    ensures
        text@ == proposed_text(id@, target@, additions as nat, removals as nat, file@, syntax@),
{
    let mut out = string_of("proposed candidate ");
    push_str(&mut out, id);
    push_str(&mut out, " against ");
    push_str(&mut out, target);
    push_str(&mut out, ": ");
    let did = effect(additions, removals);
    push_str(&mut out, did.as_str());
    push_str(&mut out, " from ");
    push_str(&mut out, file);
    push_str(&mut out, ", read as ");
    push_str(&mut out, syntax);
    push_str(&mut out, "\nnothing has been written to the vocabulary. Review it with `openbiz candidate ");
    push_str(&mut out, id);
    push_str(&mut out, "`, then `openbiz approve ");
    push_str(&mut out, id);
    push_str(&mut out, "` or `openbiz reject ");
    push_str(&mut out, id);
    push_str(&mut out, "`.");
    assert(out@ =~= proposed_text(id@, target@, additions as nat, removals as nat, file@, syntax@));
    out
}

} // verus!
