//! Resolving flag values from the command line.

use vstd::prelude::*;
use crate::flag::{help_text, is_boolean, negation, option_model, Flag};
use crate::number::{
    double_literal, i32_of, i64_of, is_double_literal, parse_i32, parse_i64, parse_u64, u64_of,
};
use crate::value::{FlagValue, ValueModel};
use crate::options::{
    add_flag, add_valued, arg_texts, floating_frees, long_only_mode, occurrences, option_table,
    options_new, set_long_only, tokenize, tokenized, value_given, was_given,
};
use crate::registry::{negation_of, well_formed, Registry};
use getopts::{Fail, Matches, Options};

verus! {

/// What the command line said of one flag.
#[derive(Clone, Debug)]
pub enum Seen {
    /// The flag was not given.
    Absent,
    /// `--NAME` was given, without a value.
    On,
    /// `--noNAME` was given.
    Off,
    /// Both `--NAME` and `--noNAME` were given.
    Both,
    /// `--NAME` was given with this value.
    Text(String),
}

/// The mathematical form of [`Seen`].
pub enum SeenModel {
    Absent,
    On,
    Off,
    Both,
    Text(Seq<char>),
}

impl View for Seen {
    type V = SeenModel;

    open spec fn view(&self) -> SeenModel {
        match self {
            Seen::Absent => SeenModel::Absent,
            Seen::On => SeenModel::On,
            Seen::Off => SeenModel::Off,
            Seen::Both => SeenModel::Both,
            Seen::Text(t) => SeenModel::Text(t@),
        }
    }
}

/// The models of what the command line said of each flag.
pub open spec fn seen_models(ss: Seq<Seen>) -> Seq<SeenModel> {
    ss.map_values(|s: Seen| s@)
}

/// The kinds of parse errors.
#[derive(Clone, Copy, Debug, PartialEq, Eq, Structural)]
pub enum ErrorKind {
    /// An option that no flag declares.
    UnrecognizedFlag,
    /// An option given more than once.
    DuplicateFlag,
    /// A value given to a boolean flag.
    UnexpectedArgument,
    /// A flag that takes a value given without one.
    MissingArgument,
    /// A value that is not a literal of the flag's type.
    TypeConversionFailure,
}

/// A parse error: its kind and the flag or option it is about.
#[derive(Clone, Debug)]
pub struct ParseError {
    pub kind: ErrorKind,
    pub flag: String,
}

/// The mathematical form of a parse error.
pub open spec fn error_model(e: ParseError) -> (ErrorKind, Seq<char>) {
    (e.kind, e.flag@)
}

/// The one-line diagnostic of an error.
pub open spec fn message_text(kind: ErrorKind, flag: Seq<char>) -> Seq<char> {
    match kind {
        ErrorKind::UnrecognizedFlag => "unregistered flag "@ + flag + " passed"@,
        ErrorKind::DuplicateFlag => "flag "@ + flag + " was passed multiple times"@,
        ErrorKind::UnexpectedArgument => "flag "@ + flag + " does not expect a value"@,
        ErrorKind::MissingArgument => "flag "@ + flag + " requires a value"@,
        ErrorKind::TypeConversionFailure => "flag "@ + flag + " was given an invalid value"@,
    }
}

impl ParseError {
    /// The one-line diagnostic of the error.
    pub fn message(&self) -> (r: String)
        ensures
            r@ == message_text(self.kind, self.flag@),
    {
        let (before, after) = match self.kind {
            ErrorKind::UnrecognizedFlag => ("unregistered flag ", " passed"),
            ErrorKind::DuplicateFlag => ("flag ", " was passed multiple times"),
            ErrorKind::UnexpectedArgument => ("flag ", " does not expect a value"),
            ErrorKind::MissingArgument => ("flag ", " requires a value"),
            ErrorKind::TypeConversionFailure => ("flag ", " was given an invalid value"),
        };
        let mut r = String::from_str(before);
        r.append(self.flag.as_str());
        r.append(after);
        r
    }
}

/// The value that the text gives a flag of the default's type, if it is a
/// literal of that type. A boolean takes no text.
pub open spec fn coerce(default: ValueModel, t: Seq<char>) -> Option<ValueModel> {
    match default {
        ValueModel::Bool(_) => None,
        ValueModel::Int32(_) => match i32_of(t) {
            Some(v) => Some(ValueModel::Int32(v)),
            None => None,
        },
        ValueModel::Int64(_) => match i64_of(t) {
            Some(v) => Some(ValueModel::Int64(v)),
            None => None,
        },
        ValueModel::Uint64(_) => match u64_of(t) {
            Some(v) => Some(ValueModel::Uint64(v)),
            None => None,
        },
        ValueModel::Double(_) => if double_literal(t) {
            Some(ValueModel::Double(t))
        } else {
            None
        },
        ValueModel::Text(_) => Some(ValueModel::Text(t)),
    }
}

/// The value resolved for one flag from what the command line said of it:
/// none when it was not given, else its new value, or the error.
pub open spec fn resolve_one(f: Flag, s: SeenModel) -> Result<
    Option<ValueModel>,
    (ErrorKind, Seq<char>),
> {
    match s {
        SeenModel::Absent => Ok(None),
        SeenModel::On => if is_boolean(f) {
            Ok(Some(ValueModel::Bool(true)))
        } else {
            Err((ErrorKind::MissingArgument, f.name@))
        },
        SeenModel::Off => if is_boolean(f) {
            Ok(Some(ValueModel::Bool(false)))
        } else {
            Err((ErrorKind::MissingArgument, f.name@))
        },
        SeenModel::Both => Err((ErrorKind::DuplicateFlag, f.name@)),
        SeenModel::Text(t) => if is_boolean(f) {
            Err((ErrorKind::UnexpectedArgument, f.name@))
        } else {
            match coerce(f.default_value@, t) {
                Some(v) => Ok(Some(v)),
                None => Err((ErrorKind::TypeConversionFailure, f.name@)),
            }
        },
    }
}

/// The values resolved for the first `n` flags, or the first error among them.
pub open spec fn resolve_upto(fs: Seq<Flag>, ss: Seq<SeenModel>, n: nat) -> Result<
    Seq<Option<ValueModel>>,
    (ErrorKind, Seq<char>),
>
    decreases n,
{
    if n == 0 {
        Ok(Seq::empty())
    } else {
        match resolve_upto(fs, ss, (n - 1) as nat) {
            Err(e) => Err(e),
            Ok(vs) => match resolve_one(fs[n - 1], ss[n - 1]) {
                Err(e) => Err(e),
                Ok(v) => Ok(vs.push(v)),
            },
        }
    }
}

/// The values resolved for all flags, in order, or the first error.
pub open spec fn resolution(fs: Seq<Flag>, ss: Seq<SeenModel>) -> Result<
    Seq<Option<ValueModel>>,
    (ErrorKind, Seq<char>),
> {
    resolve_upto(fs, ss, fs.len())
}

/// The mathematical form of resolved values.
pub open spec fn values_model(vs: Seq<Option<FlagValue>>) -> Seq<Option<ValueModel>> {
    vs.map_values(|v: Option<FlagValue>| option_model(v))
}

/// The value that the text gives a flag of the default's type, if it is a
/// literal of that type.
pub fn coerce_text(default: &FlagValue, t: &String) -> (r: Option<FlagValue>)
    ensures
        option_model(r) == coerce(default@, t@),
{
    match default {
        FlagValue::Bool(_) => None,
        FlagValue::Int32(_) => match parse_i32(t.as_str()) {
            Some(v) => Some(FlagValue::Int32(v)),
            None => None,
        },
        FlagValue::Int64(_) => match parse_i64(t.as_str()) {
            Some(v) => Some(FlagValue::Int64(v)),
            None => None,
        },
        FlagValue::Uint64(_) => match parse_u64(t.as_str()) {
            Some(v) => Some(FlagValue::Uint64(v)),
            None => None,
        },
        FlagValue::Double(_) => if is_double_literal(t.as_str()) {
            Some(FlagValue::Double(t.clone()))
        } else {
            None
        },
        FlagValue::String(_) => Some(FlagValue::String(t.clone())),
    }
}

fn error_about(kind: ErrorKind, f: &Flag) -> (r: ParseError)
    ensures
        error_model(r) == (kind, f.name@),
{
    ParseError { kind, flag: f.name.clone() }
}

/// The value resolved for one flag from what the command line said of it.
pub fn resolve_flag(f: &Flag, s: &Seen) -> (r: Result<Option<FlagValue>, ParseError>)
    ensures
        match resolve_one(*f, s@) {
            Ok(v) => r is Ok && option_model(r->Ok_0) == v,
            Err(e) => r is Err && error_model(r->Err_0) == e,
        },
{
    match s {
        Seen::Absent => Ok(None),
        Seen::On => if f.is_boolean() {
            Ok(Some(FlagValue::Bool(true)))
        } else {
            Err(error_about(ErrorKind::MissingArgument, f))
        },
        Seen::Off => if f.is_boolean() {
            Ok(Some(FlagValue::Bool(false)))
        } else {
            Err(error_about(ErrorKind::MissingArgument, f))
        },
        Seen::Both => Err(error_about(ErrorKind::DuplicateFlag, f)),
        Seen::Text(t) => if f.is_boolean() {
            Err(error_about(ErrorKind::UnexpectedArgument, f))
        } else {
            match coerce_text(&f.default_value, t) {
                Some(v) => Ok(Some(v)),
                None => Err(error_about(ErrorKind::TypeConversionFailure, f)),
            }
        },
    }
}

/// The values resolved for all flags from what the command line said of
/// each, in order, or the first error.
pub fn resolve(flags: &Vec<Flag>, seen: &Vec<Seen>) -> (r: Result<Vec<Option<FlagValue>>, ParseError>)
    requires
        flags@.len() == seen@.len(),
    ensures
        match resolution(flags@, seen_models(seen@)) {
            Ok(vs) => r is Ok && values_model(r->Ok_0@) == vs,
            Err(e) => r is Err && error_model(r->Err_0) == e,
        },
{
    let ghost ss = seen_models(seen@);
    let mut values: Vec<Option<FlagValue>> = Vec::new();
    let mut i: usize = 0;
    assert(values_model(values@) =~= Seq::<Option<ValueModel>>::empty());
    while i < flags.len()
        invariant
            flags@.len() == seen@.len(),
            i <= flags@.len(),
            ss == seen_models(seen@),
            resolve_upto(flags@, ss, i as nat) == Ok::<_, (ErrorKind, Seq<char>)>(values_model(values@)),
        decreases flags@.len() - i,
    {
        match resolve_flag(&flags[i], &seen[i]) {
            Ok(v) => {
                proof {
                    assert(values_model(values@.push(v)) =~= values_model(values@).push(option_model(v)));
                }
                values.push(v);
            },
            Err(e) => {
                proof {
                    lemma_error_persists(flags@, ss, (i + 1) as nat, flags@.len());
                }
                return Err(e);
            },
        }
        i = i + 1;
    }
    Ok(values)
}

proof fn lemma_error_persists(fs: Seq<Flag>, ss: Seq<SeenModel>, n: nat, m: nat)
    requires
        n <= m,
        resolve_upto(fs, ss, n) is Err,
    ensures
        resolve_upto(fs, ss, m) == resolve_upto(fs, ss, n),
    decreases m - n,
{
    if n < m {
        lemma_error_persists(fs, ss, n, (m - 1) as nat);
    }
}


/// The parse error that a failure of the tokenizer stands for.
pub open spec fn failure_model(f: Fail) -> (ErrorKind, Seq<char>) {
    match f {
        Fail::UnrecognizedOption(o) => (ErrorKind::UnrecognizedFlag, o@),
        Fail::OptionDuplicated(o) => (ErrorKind::DuplicateFlag, o@),
        Fail::UnexpectedArgument(o) => (ErrorKind::UnexpectedArgument, o@),
        Fail::ArgumentMissing(o) => (ErrorKind::MissingArgument, o@),
        Fail::OptionMissing(o) => (ErrorKind::MissingArgument, o@),
    }
}

/// The parse error that a failure of the tokenizer stands for. A required
/// option that is missing counts as a missing value; no flag is declared
/// required.
pub fn failure_of(f: Fail) -> (r: ParseError)
    ensures
        error_model(r) == failure_model(f),
{
    match f {
        Fail::UnrecognizedOption(o) => ParseError { kind: ErrorKind::UnrecognizedFlag, flag: o },
        Fail::OptionDuplicated(o) => ParseError { kind: ErrorKind::DuplicateFlag, flag: o },
        Fail::UnexpectedArgument(o) => ParseError { kind: ErrorKind::UnexpectedArgument, flag: o },
        Fail::ArgumentMissing(o) => ParseError { kind: ErrorKind::MissingArgument, flag: o },
        Fail::OptionMissing(o) => ParseError { kind: ErrorKind::MissingArgument, flag: o },
    }
}

/// The line that names the program and its version.
pub open spec fn version_line(program: Seq<char>, version: Seq<char>) -> Seq<char> {
    program + " version "@ + version
}

/// The help blocks of the first `n` flags, each followed by a newline.
pub open spec fn usage_upto(fs: Seq<Flag>, n: nat) -> Seq<char>
    decreases n,
{
    if n == 0 {
        Seq::empty()
    } else {
        usage_upto(fs, (n - 1) as nat) + help_text(fs[n - 1]) + seq!['\n']
    }
}

/// The help page: the help block of every flag, in order, each on its own
/// lines, then the version line.
pub open spec fn help_page(fs: Seq<Flag>, program: Seq<char>, version: Seq<char>) -> Seq<char> {
    usage_upto(fs, fs.len()) + version_line(program, version)
}

/// The line that names the program and its version.
pub fn version_text(program: &str, version: &str) -> (r: String)
    ensures
        r@ == version_line(program@, version@),
{
    let mut r = String::from_str(program);
    r.append(" version ");
    r.append(version);
    r
}

/// The help page: the help block of every flag, in order, each on its own
/// lines, then the version line.
pub fn help_page_text(flags: &Vec<Flag>, program: &str, version: &str) -> (r: String)
    ensures
        r@ == help_page(flags@, program@, version@),
{
    let mut r = String::new();
    let mut i: usize = 0;
    proof {
        reveal_strlit("\n");
        assert("\n"@ =~= seq!['\n']);
    }
    while i < flags.len()
        invariant
            i <= flags@.len(),
            r@ == usage_upto(flags@, i as nat),
            "\n"@ == seq!['\n'],
        decreases flags@.len() - i,
    {
        let block = flags[i].help_message();
        r.append(block.as_str());
        r.append("\n");
        i = i + 1;
    }
    let line = version_text(program, version);
    r.append(line.as_str());
    r
}

/// How a parse ends.
#[derive(Clone, Debug)]
pub enum ParseOutcome {
    /// The values resolved, one per flag in registration order: `None` for a
    /// flag that was not given.
    Parsed(Vec<Option<FlagValue>>),
    /// Help was asked for: the help page.
    Help(String),
    /// The version was asked for: the version line.
    Version(String),
    /// The command line is in error.
    Failed(ParseError),
}

/// The exit status that ends the program after a parse, if it is to end:
/// none after values were resolved, 0 after help or the version, 1 after
/// an error.
pub open spec fn exit_status_of(o: ParseOutcome) -> Option<i32> {
    match o {
        ParseOutcome::Parsed(_) => None,
        ParseOutcome::Help(_) => Some(0),
        ParseOutcome::Version(_) => Some(0),
        ParseOutcome::Failed(_) => Some(1),
    }
}

impl ParseOutcome {
    /// The exit status that ends the program after this outcome, if it is
    /// to end.
    pub fn exit_status(&self) -> (r: Option<i32>)
        ensures
            r == exit_status_of(*self),
    {
        match self {
            ParseOutcome::Parsed(_) => None,
            ParseOutcome::Help(_) => Some(0),
            ParseOutcome::Version(_) => Some(0),
            ParseOutcome::Failed(_) => Some(1),
        }
    }

    /// The text for the error stream: the help page, the version line or
    /// the diagnostic; none after values were resolved.
    pub fn report(&self) -> (r: Option<String>)
        ensures
            match *self {
                ParseOutcome::Parsed(_) => r is None,
                ParseOutcome::Help(t) => r is Some && r->Some_0@ == t@,
                ParseOutcome::Version(t) => r is Some && r->Some_0@ == t@,
                ParseOutcome::Failed(e) => r is Some && r->Some_0@ == message_text(e.kind, e.flag@),
            },
    {
        match self {
            ParseOutcome::Parsed(_) => None,
            ParseOutcome::Help(t) => Some(t.clone()),
            ParseOutcome::Version(t) => Some(t.clone()),
            ParseOutcome::Failed(e) => Some(e.message()),
        }
    }
}

/// The outcome owed for a command line that the tokenizer accepted: help
/// when asked for, whatever else was given; else the version when asked
/// for; else the resolved values or the first error among them.
pub open spec fn concluded(
    fs: Seq<Flag>,
    ss: Seq<SeenModel>,
    help: bool,
    version_asked: bool,
    program: Seq<char>,
    version: Seq<char>,
    r: ParseOutcome,
) -> bool {
    if help {
        r is Help && r->Help_0@ == help_page(fs, program, version)
    } else if version_asked {
        r is Version && r->Version_0@ == version_line(program, version)
    } else {
        match resolution(fs, ss) {
            Ok(vs) => r is Parsed && values_model(r->Parsed_0@) == vs,
            Err(e) => r is Failed && error_model(r->Failed_0) == e,
        }
    }
}

/// The outcome of a command line that the tokenizer accepted: help when
/// asked for, whatever else was given; else the version when asked for;
/// else the resolved values or the first error among them.
pub fn conclude(
    flags: &Vec<Flag>,
    seen: &Vec<Seen>,
    help: bool,
    version_asked: bool,
    program: &str,
    version: &str,
) -> (r: ParseOutcome)
    requires
        flags@.len() == seen@.len(),
    ensures
        concluded(flags@, seen_models(seen@), help, version_asked, program@, version@, r),
{
    if help {
        ParseOutcome::Help(help_page_text(flags, program, version))
    } else if version_asked {
        ParseOutcome::Version(version_text(program, version))
    } else {
        match resolve(flags, seen) {
            Ok(values) => ParseOutcome::Parsed(values),
            Err(e) => ParseOutcome::Failed(e),
        }
    }
}

/// Two lists of flags with the same declarations, whatever their parsed
/// slots hold.
pub open spec fn same_declarations(fs: Seq<Flag>, gs: Seq<Flag>) -> bool {
    fs.len() == gs.len() && forall|i: int|
        0 <= i < fs.len() ==> (#[trigger] fs[i]).name@ == gs[i].name@ && fs[i].default_value@
            == gs[i].default_value@
}

/// Resolution is a function of the flags' declarations and the command line
/// alone: resolving the same command line again, after the parsed slots
/// were written, gives the same values or the same error.
pub proof fn lemma_resolution_repeatable(fs: Seq<Flag>, gs: Seq<Flag>, ss: Seq<SeenModel>)
    requires
        same_declarations(fs, gs),
    ensures
        resolution(fs, ss) == resolution(gs, ss),
{
    lemma_resolve_upto_same(fs, gs, ss, fs.len());
}

proof fn lemma_resolve_upto_same(fs: Seq<Flag>, gs: Seq<Flag>, ss: Seq<SeenModel>, n: nat)
    requires
        same_declarations(fs, gs),
        n <= fs.len(),
    ensures
        resolve_upto(fs, ss, n) == resolve_upto(gs, ss, n),
    decreases n,
{
    if n > 0 {
        lemma_resolve_upto_same(fs, gs, ss, (n - 1) as nat);
        assert(fs[n - 1].name@ == gs[n - 1].name@);
        assert(resolve_one(fs[n - 1], ss[n - 1]) == resolve_one(gs[n - 1], ss[n - 1]));
    }
}


/// An option of the tokenizer's schema: short name, long name, and whether
/// it takes a value.
pub type OptionEntry = (Seq<char>, Seq<char>, bool);

/// The options of one flag: `--NAME`, and `--noNAME` for a boolean one; a
/// flag that is not boolean takes a value.
pub open spec fn flag_options(f: Flag) -> Seq<OptionEntry> {
    if is_boolean(f) {
        seq![(Seq::empty(), f.name@, false), (Seq::empty(), negation(f.name@), false)]
    } else {
        seq![(Seq::empty(), f.name@, true)]
    }
}

/// The options of the first `n` flags, in order.
pub open spec fn flags_options(fs: Seq<Flag>, n: nat) -> Seq<OptionEntry>
    decreases n,
{
    if n == 0 {
        Seq::empty()
    } else {
        flags_options(fs, (n - 1) as nat) + flag_options(fs[n - 1])
    }
}

/// The tokenizer's schema: the options of every flag, in order, then
/// `-h`/`--help` and `-V`/`--version`.
pub open spec fn schema(fs: Seq<Flag>) -> Seq<OptionEntry> {
    flags_options(fs, fs.len()) + seq![
        (seq!['h'], "help"@, false),
        (seq!['V'], "version"@, false),
    ]
}

proof fn lemma_flag_options_in_schema(fs: Seq<Flag>, n: nat, i: int, e: OptionEntry)
    requires
        0 <= i < n <= fs.len(),
        flag_options(fs[i]).contains(e),
    ensures
        flags_options(fs, n).contains(e),
    decreases n,
{
    let prev = flags_options(fs, (n - 1) as nat);
    let last = flag_options(fs[n - 1]);
    if i == n - 1 {
        let k = choose|k: int| 0 <= k < last.len() && last[k] == e;
        assert((prev + last)[prev.len() + k] == e);
    } else {
        lemma_flag_options_in_schema(fs, (n - 1) as nat, i, e);
        let k = choose|k: int| 0 <= k < prev.len() && prev[k] == e;
        assert((prev + last)[k] == e);
    }
}

/// Builds the tokenizer's options for the flags: long options only, each
/// flag's options in order, then help and version.
pub fn build_options(flags: &Vec<Flag>, program: &str) -> (r: Options)
    requires
        well_formed(flags@),
    ensures
        option_table(r) == schema(flags@),
        long_only_mode(r),
        floating_frees(r),
{
    let mut opts = options_new();
    set_long_only(&mut opts);
    let mut i: usize = 0;
    proof {
        reveal_strlit("");
    }
    while i < flags.len()
        invariant
            well_formed(flags@),
            i <= flags@.len(),
            option_table(opts) == flags_options(flags@, i as nat),
            long_only_mode(opts),
            floating_frees(opts),
            ""@ == Seq::<char>::empty(),
        decreases flags@.len() - i,
    {
        let f = &flags[i];
        proof {
            assert(crate::registry::admissible(flags@[i as int]));
        }
        if f.is_boolean() {
            add_flag(&mut opts, "", f.name.as_str(), f.description.as_str());
            let negated = negation_of(&f.name);
            let mut desc = String::from_str("Sets ");
            desc.append(f.name.as_str());
            desc.append(" to false.");
            add_flag(&mut opts, "", negated.as_str(), desc.as_str());
        } else {
            add_valued(&mut opts, "", f.name.as_str(), f.description.as_str());
        }
        proof {
            assert(option_table(opts) =~= flags_options(flags@, (i + 1) as nat));
        }
        i = i + 1;
    }
    proof {
        reveal_strlit("h");
        reveal_strlit("V");
        assert("h"@ =~= seq!['h']);
        assert("V"@ =~= seq!['V']);
        reveal_strlit("help");
        reveal_strlit("version");
    }
    add_flag(&mut opts, "h", "help", "Shows the help.");
    let mut desc = String::from_str("Shows the version of ");
    desc.append(program);
    desc.append(".");
    add_flag(&mut opts, "V", "version", desc.as_str());
    proof {
        assert(option_table(opts) =~= schema(flags@));
    }
    opts
}

/// Every flag's options can be asked about in the match result.
pub open spec fn all_defined(fs: Seq<Flag>, m: Matches) -> bool {
    forall|i: int, e: OptionEntry|
        0 <= i < fs.len() && #[trigger] flag_options(fs[i]).contains(e) ==> occurrences(m).dom().contains(e.1)
}

/// Whether an option occurred, by the tokenizer's occurrences.
pub open spec fn occurred(occ: Map<Seq<char>, Seq<Option<Seq<char>>>>, name: Seq<char>) -> bool {
    occ[name].len() > 0
}

/// What the tokenizer's occurrences say of one flag. A boolean flag is on,
/// off, both or absent as `--NAME` and `--noNAME` occurred; any other flag
/// holds the value given to its first occurrence, if it has one.
pub open spec fn seen_in(f: Flag, occ: Map<Seq<char>, Seq<Option<Seq<char>>>>) -> SeenModel {
    if is_boolean(f) {
        let on = occurred(occ, f.name@);
        let off = occurred(occ, negation(f.name@));
        if on && off {
            SeenModel::Both
        } else if on {
            SeenModel::On
        } else if off {
            SeenModel::Off
        } else {
            SeenModel::Absent
        }
    } else if occurred(occ, f.name@) && occ[f.name@][0] is Some {
        SeenModel::Text(occ[f.name@][0]->Some_0)
    } else {
        SeenModel::Absent
    }
}

/// What the tokenizer's occurrences say of each flag, in order.
pub open spec fn seen_of(fs: Seq<Flag>, occ: Map<Seq<char>, Seq<Option<Seq<char>>>>) -> Seq<
    SeenModel,
> {
    Seq::new(fs.len(), |i: int| seen_in(fs[i], occ))
}

/// What the command line said of each flag, read from the tokenizer's
/// result.
fn observe(flags: &Vec<Flag>, m: &Matches) -> (r: Vec<Seen>)
    requires
        all_defined(flags@, *m),
    ensures
        r@.len() == flags@.len(),
        seen_models(r@) == seen_of(flags@, occurrences(*m)),
{
    let mut seen: Vec<Seen> = Vec::new();
    let mut i: usize = 0;
    while i < flags.len()
        invariant
            all_defined(flags@, *m),
            i <= flags@.len(),
            seen@.len() == i,
            forall|k: int|
                0 <= k < i ==> (#[trigger] seen@[k])@ == seen_in(flags@[k], occurrences(*m)),
        decreases flags@.len() - i,
    {
        let f = &flags[i];
        let ghost opts = flag_options(flags@[i as int]);
        if f.is_boolean() {
            proof {
                assert(opts[0] == (Seq::<char>::empty(), f.name@, false));
                assert(opts.contains(opts[0]));
                assert(opts[1] == (Seq::<char>::empty(), negation(f.name@), false));
                assert(opts.contains(opts[1]));
            }
            let negated = negation_of(&f.name);
            let on = was_given(m, f.name.as_str());
            let off = was_given(m, negated.as_str());
            let s = if on && off {
                Seen::Both
            } else if on {
                Seen::On
            } else if off {
                Seen::Off
            } else {
                Seen::Absent
            };
            seen.push(s);
        } else {
            proof {
                assert(opts[0] == (Seq::<char>::empty(), f.name@, true));
                assert(opts.contains(opts[0]));
            }
            let s = match value_given(m, f.name.as_str()) {
                Some(t) => Seen::Text(t),
                None => Seen::Absent,
            };
            seen.push(s);
        }
        i = i + 1;
    }
    assert(seen_models(seen@) =~= seen_of(flags@, occurrences(*m)));
    seen
}


proof fn lemma_resolution_len(fs: Seq<Flag>, ss: Seq<SeenModel>, n: nat)
    ensures
        resolve_upto(fs, ss, n) is Ok ==> resolve_upto(fs, ss, n)->Ok_0.len() == n,
    decreases n,
{
    if n > 0 {
        lemma_resolution_len(fs, ss, (n - 1) as nat);
    }
}

proof fn lemma_tokenized_all_defined(fs: Seq<Flag>, o: Options, m: Matches)
    requires
        well_formed(fs),
        option_table(o) == schema(fs),
        forall|k: int|
            0 <= k < option_table(o).len() && (#[trigger] option_table(o)[k]).1.len() >= 2
                ==> occurrences(m).dom().contains(option_table(o)[k].1),
    ensures
        all_defined(fs, m),
        occurrences(m).dom().contains("help"@),
        occurrences(m).dom().contains("version"@),
{
    let n = fs.len();
    assert forall|i: int, e: OptionEntry|
        0 <= i < fs.len() && #[trigger] flag_options(fs[i]).contains(e) implies occurrences(m).dom().contains(e.1) by {
        lemma_flag_options_in_schema(fs, n, i, e);
        let k = choose|k: int|
            0 <= k < flags_options(fs, n).len() && flags_options(fs, n)[k] == e;
        assert(option_table(o)[k] == e);
        assert(crate::registry::admissible(fs[i]));
        let j = choose|j: int| 0 <= j < flag_options(fs[i]).len() && flag_options(fs[i])[j] == e;
        assert(e.1.len() >= 2);
    }
    reveal_strlit("help");
    reveal_strlit("version");
    let base = flags_options(fs, n).len();
    assert(option_table(o)[base as int] == (seq!['h'], "help"@, false));
    assert(option_table(o)[base + 1int] == (seq!['V'], "version"@, false));
}

/// An argument that the tokenizer reads as an option: `-` and at least one
/// more character.
pub open spec fn is_option(t: Seq<char>) -> bool {
    t.len() > 1 && t[0] == '-'
}

/// Where the name of an option argument starts: after `--`, or after `-`.
pub open spec fn name_start(t: Seq<char>) -> int {
    if t.len() > 1 && t[1] == '-' {
        2
    } else {
        1
    }
}

/// The position of the first `=` at or after `i`, or the length.
pub open spec fn eq_from(t: Seq<char>, i: int) -> int
    decreases t.len() - i,
{
    if i < 0 || i >= t.len() {
        t.len() as int
    } else if t[i] == '=' {
        i
    } else {
        eq_from(t, i + 1)
    }
}

/// The name of an option argument: what stands between the dashes and the
/// first `=`.
pub open spec fn option_name(t: Seq<char>) -> Seq<char> {
    t.subrange(name_start(t), eq_from(t, name_start(t)))
}

/// Whether an option argument carries its value after `=`.
pub open spec fn has_inline_value(t: Seq<char>) -> bool {
    eq_from(t, name_start(t)) < t.len()
}

/// A name that the tokenizer's schema declares: a flag's name, the negation
/// of a boolean flag's, or a name of help or version.
pub open spec fn declared(fs: Seq<Flag>, n: Seq<char>) -> bool {
    n == "help"@ || n == "version"@ || n == "h"@ || n == "V"@ || exists|i: int|
        0 <= i < fs.len() && (#[trigger] fs[i].name@ == n || (is_boolean(fs[i]) && negation(
            fs[i].name@,
        ) == n))
}

/// The name of a flag that takes a value.
pub open spec fn value_flag(fs: Seq<Flag>, n: Seq<char>) -> bool {
    exists|i: int| 0 <= i < fs.len() && #[trigger] fs[i].name@ == n && !is_boolean(fs[i])
}

/// Scanning the arguments from position `i`: the error when a flag that
/// takes a value, given without `=`, is followed by a declared option, which
/// is then not taken as its value. The same flag again is a duplicate;
/// another option leaves the value missing. The scan stops at the first
/// argument that the tokenizer itself refuses, and at the end.
pub open spec fn option_as_value(fs: Seq<Flag>, toks: Seq<Seq<char>>, i: int) -> Option<
    (ErrorKind, Seq<char>),
>
    decreases toks.len() - i,
{
    if i < 0 || i >= toks.len() {
        None
    } else if !is_option(toks[i]) {
        option_as_value(fs, toks, i + 1)
    } else if !declared(fs, option_name(toks[i])) {
        None
    } else if !value_flag(fs, option_name(toks[i])) {
        if has_inline_value(toks[i]) {
            None
        } else {
            option_as_value(fs, toks, i + 1)
        }
    } else if has_inline_value(toks[i]) {
        option_as_value(fs, toks, i + 1)
    } else if i + 1 >= toks.len() {
        None
    } else if is_option(toks[i + 1]) && declared(fs, option_name(toks[i + 1])) {
        if option_name(toks[i + 1]) == option_name(toks[i]) {
            Some((ErrorKind::DuplicateFlag, option_name(toks[i])))
        } else {
            Some((ErrorKind::MissingArgument, option_name(toks[i])))
        }
    } else {
        option_as_value(fs, toks, i + 2)
    }
}

fn find_eq(t: &str, i: usize) -> (r: usize)
    requires
        i <= t@.len(),
    ensures
        r == eq_from(t@, i as int),
        i <= r <= t@.len(),
{
    let n = t.unicode_len();
    let mut j: usize = i;
    while j < n && t.get_char(j) != '='
        invariant
            i <= j <= n,
            n == t@.len(),
            eq_from(t@, i as int) == eq_from(t@, j as int),
        decreases n - j,
    {
        j = j + 1;
    }
    j
}

fn segment_is(t: &str, s: usize, e: usize, w: &str) -> (r: bool)
    requires
        s <= e <= t@.len(),
    ensures
        r == (t@.subrange(s as int, e as int) == w@),
{
    let m = w.unicode_len();
    if e - s != m {
        return false;
    }
    let mut k: usize = 0;
    while k < m
        invariant
            s <= e <= t@.len(),
            m == w@.len(),
            e - s == m,
            k <= m,
            forall|j: int| 0 <= j < k ==> t@[s + j] == w@[j],
        decreases m - k,
    {
        if t.get_char(s + k) != w.get_char(k) {
            assert(t@.subrange(s as int, e as int)[k as int] != w@[k as int]);
            return false;
        }
        k = k + 1;
    }
    assert(t@.subrange(s as int, e as int) =~= w@);
    true
}

/// Whether the name between `s` and `e` in `t` is declared, and whether it
/// is that of a flag taking a value.
fn classify_name(flags: &Vec<Flag>, t: &str, s: usize, e: usize) -> (r: (bool, bool))
    requires
        s <= e <= t@.len(),
    ensures
        r.0 == declared(flags@, t@.subrange(s as int, e as int)),
        r.1 == value_flag(flags@, t@.subrange(s as int, e as int)),
{
    let ghost n = t@.subrange(s as int, e as int);
    let mut found = segment_is(t, s, e, "help") || segment_is(t, s, e, "version")
        || segment_is(t, s, e, "h") || segment_is(t, s, e, "V");
    let ghost reserved_hit = found;
    let mut valued = false;
    let mut i: usize = 0;
    while i < flags.len()
        invariant
            s <= e <= t@.len(),
            n == t@.subrange(s as int, e as int),
            i <= flags@.len(),
            reserved_hit == (n == "help"@ || n == "version"@ || n == "h"@ || n == "V"@),
            found == (reserved_hit || exists|k: int|
                0 <= k < i && (#[trigger] flags@[k].name@ == n || (is_boolean(flags@[k])
                    && negation(flags@[k].name@) == n))),
            valued == exists|k: int|
                0 <= k < i && #[trigger] flags@[k].name@ == n && !is_boolean(flags@[k]),
        decreases flags@.len() - i,
    {
        let f = &flags[i];
        let same = segment_is(t, s, e, f.name.as_str());
        let boolean = f.is_boolean();
        let negated = negation_of(&f.name);
        let neg = boolean && segment_is(t, s, e, negated.as_str());
        if same || neg {
            found = true;
        }
        if same && !boolean {
            valued = true;
        }
        proof {
            assert(flags@[i as int] == *f);
        }
        i = i + 1;
    }
    (found, valued)
}

/// The error, if any, of a flag that takes a value being followed by a
/// declared option: the same flag again is a duplicate, another option
/// leaves its value missing.
pub fn option_taken_as_value(flags: &Vec<Flag>, toks: &Vec<String>) -> (r: Option<ParseError>)
    ensures
        match option_as_value(flags@, arg_texts(toks@), 0) {
            Some(e) => r is Some && error_model(r->Some_0) == e,
            None => r is None,
        },
{
    let ghost ts = arg_texts(toks@);
    let n = toks.len();
    let mut i: usize = 0;
    while i < n
        invariant
            n == toks@.len(),
            ts == arg_texts(toks@),
            i <= n + 1,
            option_as_value(flags@, ts, 0) == option_as_value(flags@, ts, i as int),
        decreases n + 1 - i,
    {
        let t = toks[i].as_str();
        proof {
            assert(ts[i as int] == t@);
        }
        let len = t.unicode_len();
        if !(len > 1 && t.get_char(0) == '-') {
            i = i + 1;
            continue;
        }
        let s: usize = if t.get_char(1) == '-' { 2 } else { 1 };
        let e = find_eq(t, s);
        let (known, valued) = classify_name(flags, t, s, e);
        if !known {
            return None;
        }
        if !valued {
            if e < len {
                return None;
            }
            i = i + 1;
            continue;
        }
        if e < len {
            i = i + 1;
            continue;
        }
        if i + 1 >= n {
            return None;
        }
        let u = toks[i + 1].as_str();
        proof {
            assert(ts[i + 1] == u@);
        }
        let ulen = u.unicode_len();
        if ulen > 1 && u.get_char(0) == '-' {
            let us: usize = if u.get_char(1) == '-' { 2 } else { 1 };
            let ue = find_eq(u, us);
            let (u_known, _) = classify_name(flags, u, us, ue);
            if u_known {
                let flag = String::from_str(t.substring_char(s, e));
                let same = segment_is(u, us, ue, flag.as_str());
                let kind = if same { ErrorKind::DuplicateFlag } else { ErrorKind::MissingArgument };
                return Some(ParseError { kind, flag });
            }
        }
        i = i + 2;
    }
    None
}

/// The outcome owed for the flags `fs`, the program's name, the arguments
/// after it and the version: the error of a declared option standing where
/// a value is due, else the tokenizer's failure, else help, the version, or
/// the resolved values or their first error.
pub open spec fn parse_owed(
    fs: Seq<Flag>,
    program: Seq<char>,
    toks: Seq<Seq<char>>,
    version: Seq<char>,
    r: ParseOutcome,
) -> bool {
    match option_as_value(fs, toks, 0) {
        Some(e) => r is Failed && error_model(r->Failed_0) == e,
        None => match tokenized(schema(fs), toks) {
            Err(f) => r is Failed && error_model(r->Failed_0) == failure_model(f),
            Ok(occ) => concluded(
                fs,
                seen_of(fs, occ),
                occurred(occ, "help"@),
                occurred(occ, "version"@),
                program,
                version,
                r,
            ),
        },
    }
}

/// Two lists of flags with the same descriptors (name, description and
/// default), in the same order, whatever their parsed slots hold.
pub open spec fn same_descriptors(fs: Seq<Flag>, gs: Seq<Flag>) -> bool {
    fs.len() == gs.len() && forall|i: int|
        0 <= i < fs.len() ==> (#[trigger] fs[i]).name@ == gs[i].name@ && fs[i].description@
            == gs[i].description@ && fs[i].default_value@ == gs[i].default_value@
}

proof fn lemma_options_same(fs: Seq<Flag>, gs: Seq<Flag>, n: nat)
    requires
        same_descriptors(fs, gs),
        n <= fs.len(),
    ensures
        flags_options(fs, n) == flags_options(gs, n),
        usage_upto(fs, n) == usage_upto(gs, n),
    decreases n,
{
    if n > 0 {
        lemma_options_same(fs, gs, (n - 1) as nat);
        assert(fs[n - 1].name@ == gs[n - 1].name@);
    }
}

proof fn lemma_scan_same(fs: Seq<Flag>, gs: Seq<Flag>, toks: Seq<Seq<char>>, i: int)
    requires
        same_descriptors(fs, gs),
        forall|n: Seq<char>| declared(fs, n) == declared(gs, n),
        forall|n: Seq<char>| value_flag(fs, n) == value_flag(gs, n),
    ensures
        option_as_value(fs, toks, i) == option_as_value(gs, toks, i),
    decreases toks.len() - i,
{
    if 0 <= i < toks.len() {
        lemma_scan_same(fs, gs, toks, i + 1);
        if i + 2 <= toks.len() {
            lemma_scan_same(fs, gs, toks, i + 2);
        }
    }
}

proof fn lemma_names_same(fs: Seq<Flag>, gs: Seq<Flag>)
    requires
        same_descriptors(fs, gs),
    ensures
        forall|n: Seq<char>| declared(fs, n) == declared(gs, n),
        forall|n: Seq<char>| value_flag(fs, n) == value_flag(gs, n),
{
    assert forall|n: Seq<char>| declared(fs, n) == declared(gs, n) by {
        if declared(fs, n) && !(n == "help"@ || n == "version"@ || n == "h"@ || n == "V"@) {
            let i = choose|i: int|
                0 <= i < fs.len() && (#[trigger] fs[i].name@ == n || (is_boolean(fs[i])
                    && negation(fs[i].name@) == n));
            assert(gs[i].name@ == fs[i].name@);
        }
        if declared(gs, n) && !(n == "help"@ || n == "version"@ || n == "h"@ || n == "V"@) {
            let i = choose|i: int|
                0 <= i < gs.len() && (#[trigger] gs[i].name@ == n || (is_boolean(gs[i])
                    && negation(gs[i].name@) == n));
            assert(gs[i].name@ == fs[i].name@);
        }
    }
    assert forall|n: Seq<char>| value_flag(fs, n) == value_flag(gs, n) by {
        if value_flag(fs, n) {
            let i = choose|i: int| 0 <= i < fs.len() && #[trigger] fs[i].name@ == n && !is_boolean(fs[i]);
            assert(gs[i].name@ == fs[i].name@);
        }
        if value_flag(gs, n) {
            let i = choose|i: int| 0 <= i < gs.len() && #[trigger] gs[i].name@ == n && !is_boolean(gs[i]);
            assert(gs[i].name@ == fs[i].name@);
        }
    }
}

/// Parsing is a function of the flags' descriptors and the command line:
/// two registries with the same descriptors in the same order, given the
/// same arguments and version, are owed the same outcome, whatever their
/// parsed slots held, so parsing the same command line twice gives the
/// same values.
pub proof fn lemma_parse_repeatable(
    fs: Seq<Flag>,
    gs: Seq<Flag>,
    program: Seq<char>,
    toks: Seq<Seq<char>>,
    version: Seq<char>,
    r: ParseOutcome,
)
    requires
        same_descriptors(fs, gs),
    ensures
        parse_owed(fs, program, toks, version, r) == parse_owed(gs, program, toks, version, r),
{
    lemma_options_same(fs, gs, fs.len());
    lemma_names_same(fs, gs);
    lemma_scan_same(fs, gs, toks, 0);
    assert(same_declarations(fs, gs));
    assert(schema(fs) == schema(gs));
    match tokenized(schema(fs), toks) {
        Ok(occ) => {
            assert(seen_of(fs, occ) =~= seen_of(gs, occ));
            lemma_resolution_repeatable(fs, gs, seen_of(fs, occ));
        },
        Err(_) => {},
    }
}

/// Parses the command line `args` (the program's name, then its arguments)
/// against the registered flags, with `version` the program's version.
///
/// The arguments are read first. A flag that takes a value takes
/// `--NAME=VALUE`, or else the next argument, unless that argument is
/// itself a declared option: then the command line fails, as a duplicate
/// when it is the same flag again (`--count --count`), else as a missing
/// value. A command line that the tokenizer refuses fails with the matching
/// error. These errors come first, even beside `--help`. Otherwise help,
/// then the version, are answered when asked for, whatever else was given;
/// else every flag's value is resolved, and on success written into the
/// flags' parsed slots. Only that success changes the registry.
pub fn parse(registry: &mut Registry, version: &str, args: &Vec<String>) -> (r: ParseOutcome)
    requires
        args@.len() >= 1,
    ensures
        parse_owed(old(registry)@, args@[0]@, arg_texts(args@.skip(1)), version@, r),
        r is Parsed ==> final(registry)@.len() == old(registry)@.len() && (forall|i: int|
            0 <= i < old(registry)@.len() ==> (#[trigger] final(registry)@[i]).name
                == old(registry)@[i].name && final(registry)@[i].description
                == old(registry)@[i].description && final(registry)@[i].default_value
                == old(registry)@[i].default_value && final(registry)@[i].parsed_value
                == r->Parsed_0@[i]),
        !(r is Parsed) ==> final(registry)@ == old(registry)@,
{
    let program = &args[0];
    let flags = registry.all();
    let opts = build_options(flags, program.as_str());
    let mut rest: Vec<String> = Vec::new();
    let mut j: usize = 1;
    while j < args.len()
        invariant
            1 <= j <= args@.len(),
            rest@ == args@.subrange(1, j as int),
        decreases args@.len() - j,
    {
        rest.push(args[j].clone());
        proof {
            assert(rest@ =~= args@.subrange(1, j + 1));
        }
        j = j + 1;
    }
    proof {
        assert(rest@ =~= args@.skip(1));
        assert(arg_texts(rest@) == arg_texts(args@.skip(1)));
        reveal_strlit("help");
        reveal_strlit("version");
    }
    if let Some(e) = option_taken_as_value(flags, &rest) {
        return ParseOutcome::Failed(e);
    }
    let tokens = tokenize(&opts, &rest);
    proof {
        assert(flags@ == old(registry)@);
        assert(option_table(opts) == schema(old(registry)@));
    }
    match tokens {
        Err(f) => ParseOutcome::Failed(failure_of(f)),
        Ok(m) => {
            proof {
                lemma_tokenized_all_defined(flags@, opts, m);
            }
            let help = was_given(&m, "help");
            let version_asked = was_given(&m, "version");
            let seen = observe(flags, &m);
            let outcome = conclude(flags, &seen, help, version_asked, program.as_str(), version);
            proof {
                lemma_resolution_len(flags@, seen_models(seen@), flags@.len());
            }
            if let ParseOutcome::Parsed(values) = &outcome {
                registry.record(values);
            }
            outcome
        },
    }
}

}
