//! The option tokenizer of the `getopts` crate, as the parser uses it.

use vstd::prelude::*;
use getopts::{Fail, Matches, Options};

verus! {

#[verifier::external_type_specification]
#[verifier::external_body]
pub struct ExOptions(Options);

#[verifier::external_type_specification]
#[verifier::external_body]
pub struct ExMatches(Matches);

#[verifier::external_type_specification]
pub struct ExFail(Fail);

/// The option groups declared on a set of options, in order: the short
/// name, the long name, and whether the option takes a value. Every group
/// is optional: the wrappers below are the only way to add one, and both
/// add optional groups.
pub uninterp spec fn option_table(o: Options) -> Seq<(Seq<char>, Seq<char>, bool)>;

/// Whether a set of options is in long-options-only mode.
pub uninterp spec fn long_only_mode(o: Options) -> bool;

/// Whether a set of options lets free arguments stand between options
/// (getopts' `ParsingStyle::FloatingFrees`).
pub uninterp spec fn floating_frees(o: Options) -> bool;

/// What getopts' `Options::parse` makes of the arguments `args` under the
/// option groups `table` (short name, long name, whether it takes a value;
/// each group optional), in long-options-only mode with floating free
/// arguments: for every name that can be asked about, the occurrences of its
/// group in order, each with the value given to it, if any; or the failure.
pub uninterp spec fn tokenized(
    table: Seq<(Seq<char>, Seq<char>, bool)>,
    args: Seq<Seq<char>>,
) -> Result<Map<Seq<char>, Seq<Option<Seq<char>>>>, Fail>;

/// What a parse result holds: for every name that can be asked about, the
/// occurrences of its group in order, each with the value given, if any.
pub uninterp spec fn occurrences(m: Matches) -> Map<Seq<char>, Seq<Option<Seq<char>>>>;

/// The texts of the arguments.
pub open spec fn arg_texts(args: Seq<String>) -> Seq<Seq<char>> {
    args.map_values(|a: String| a@)
}

/// A short name that getopts accepts: none, or one ASCII character.
pub open spec fn short_name_ok(s: Seq<char>) -> bool {
    s.len() == 0 || (s.len() == 1 && (s[0] as u32) < 128)
}

/// Relies on getopts::Options::new: a blank set of options, not in
/// long-options-only mode, with floating free arguments.
#[verifier::external_body]
pub(crate) fn options_new() -> (r: Options)
    ensures
        option_table(r) == Seq::<(Seq<char>, Seq<char>, bool)>::empty(),
        !long_only_mode(r),
        floating_frees(r),
{
    Options::new()
}

/// Relies on getopts::Options::long_only: it sets the mode and leaves the
/// option groups as they are.
#[verifier::external_body]
pub(crate) fn set_long_only(o: &mut Options)
    ensures
        option_table(*final(o)) == option_table(*old(o)),
        long_only_mode(*final(o)),
        floating_frees(*final(o)) == floating_frees(*old(o)),
{
    o.long_only(true);
}

/// Relies on getopts::Options::optflag: it appends an option group that takes
/// no value. It panics on a short name longer than one byte and on a long
/// name of exactly one byte.
#[verifier::external_body]
pub(crate) fn add_flag(o: &mut Options, short_name: &str, long_name: &str, desc: &str)
    requires
        short_name_ok(short_name@),
        long_name@.len() >= 2,
    ensures
        option_table(*final(o)) == option_table(*old(o)).push((short_name@, long_name@, false)),
        long_only_mode(*final(o)) == long_only_mode(*old(o)),
        floating_frees(*final(o)) == floating_frees(*old(o)),
{
    o.optflag(short_name, long_name, desc);
}

/// Relies on getopts::Options::optopt: it appends an option group that takes
/// a value. It panics on the same names as `optflag`.
#[verifier::external_body]
pub(crate) fn add_valued(o: &mut Options, short_name: &str, long_name: &str, desc: &str)
    requires
        short_name_ok(short_name@),
        long_name@.len() >= 2,
    ensures
        option_table(*final(o)) == option_table(*old(o)).push((short_name@, long_name@, true)),
        long_only_mode(*final(o)) == long_only_mode(*old(o)),
        floating_frees(*final(o)) == floating_frees(*old(o)),
{
    o.optopt(short_name, long_name, desc, "");
}

/// Relies on getopts::Options::parse: in long-options-only mode with
/// floating free arguments, its result is `tokenized` of the option groups
/// and the arguments; on success, every long name of two or more characters
/// among the option groups can be asked about.
#[verifier::external_body]
pub(crate) fn tokenize(o: &Options, args: &Vec<String>) -> (r: Result<Matches, Fail>)
    ensures
        long_only_mode(*o) && floating_frees(*o) ==> match tokenized(
            option_table(*o),
            arg_texts(args@),
        ) {
            Ok(occ) => r is Ok && occurrences(r->Ok_0) == occ,
            Err(f) => r == Err::<Matches, Fail>(f),
        },
        r matches Ok(m) ==> forall|k: int|
            0 <= k < option_table(*o).len() && (#[trigger] option_table(*o)[k]).1.len() >= 2
                ==> occurrences(m).dom().contains(option_table(*o)[k].1),
{
    o.parse(args)
}

/// Relies on getopts::Matches::opt_present: whether the option occurred.
/// It panics on a name that is not defined.
#[verifier::external_body]
pub(crate) fn was_given(m: &Matches, name: &str) -> (r: bool)
    requires
        occurrences(*m).dom().contains(name@),
    ensures
        r == (occurrences(*m)[name@].len() > 0),
{
    m.opt_present(name)
}

/// Relies on getopts::Matches::opt_str: the value given to the first
/// occurrence of the option, if it occurred and was given one. It panics on
/// a name that is not defined.
#[verifier::external_body]
pub(crate) fn value_given(m: &Matches, name: &str) -> (r: Option<String>)
    requires
        occurrences(*m).dom().contains(name@),
    ensures
        match r {
            Some(t) => occurrences(*m)[name@].len() > 0 && occurrences(*m)[name@][0] == Some(t@),
            None => !(occurrences(*m)[name@].len() > 0 && occurrences(*m)[name@][0] is Some),
        },
{
    m.opt_str(name)
}

}
