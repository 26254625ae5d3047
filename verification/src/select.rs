//! Selection flags: which sub-configurations are active, and the argument
//! list that each active one is parsed from.

use crate::partition::{partition, partitioned};
use crate::text::has_prefix;
use vstd::prelude::*;
use vstd::string::*;

verus! {

/// The kebab-case form of a name, as the `heck` crate computes it.
pub uninterp spec fn kebab_case(name: Seq<char>) -> Seq<char>;

/// Calls `heck::ToKebabCase::to_kebab_case` on `name`. The result is a
/// function of the name alone; the contract names it and says no more.
#[verifier::external_body]
fn to_kebab_case(name: &str) -> (r: String)
    ensures
        r@ == kebab_case(name@),
{
    heck::ToKebabCase::to_kebab_case(name)
}

/// What introduces the message of a [`SubcommandParseError`].
pub open spec fn parse_failure_intro() -> Seq<char> {
    "Failed to parse subcommand: "@
}

/// Whether `message` begins with the introduction of a parse failure.
pub open spec fn has_intro(message: Seq<char>) -> bool {
    has_prefix(message, parse_failure_intro())
}

/// A type that offers help text for its selections, for use in compositions
/// of selecting commands.
pub trait SelectOperations {
    /// The help text of all selections.
    fn select_help_selection_string() -> String;
}

/// A type that can be parsed from an argument list whose first item is the
/// program name.
pub trait SubcommandParser: Sized {
    /// Parses `args`, or says why they cannot be parsed.
    fn try_parse_from(args: &Vec<String>) -> Result<Self, String>;
}

/// A selection flag and whether it is set.
#[derive(Clone, Debug, PartialEq, Eq)]
pub struct Selection {
    /// The flag, as written on the command line without dashes.
    pub flag: String,
    /// Whether the flag is set.
    pub enabled: bool,
}

/// The routed arguments of a selection could not be parsed.
#[derive(Clone, Debug, PartialEq, Eq)]
pub struct SubcommandParseError {
    /// The flag whose arguments were rejected.
    pub flag: String,
    /// The fixed introduction, then the parser's own message.
    pub message: String,
}

/// The argument list for the selection `flag`: the flag as program name, then
/// the partition of `extra` for it.
pub open spec fn subcommand_argv(flag: Seq<char>, extra: Seq<Seq<char>>) -> Seq<Seq<char>> {
    seq![flag] + partitioned(extra, flag)
}

/// The flag under which a field named `name` is selected: its kebab-case form.
pub fn selection_flag(name: &str) -> (flag: String)
    ensures
        flag@ == kebab_case(name@),
{
    to_kebab_case(name)
}

/// Builds the argument list that the parser of selection `flag` is given.
pub fn subcommand_args(flag: &str, extra_args: &Vec<String>) -> (args: Vec<String>)
    ensures
        args.deep_view() == subcommand_argv(flag@, extra_args.deep_view()),
{
    let mut args: Vec<String> = Vec::new();
    args.push(String::from_str(flag));
    let mut routed = partition(extra_args, flag);
    let ghost routed_view = routed.deep_view();
    let ghost routed_seq = routed@;
    args.append(&mut routed);
    proof {
        assert(args@ =~= seq![args@[0]] + routed_seq);
        assert(args.deep_view() =~= seq![flag@] + routed_view);
    }
    args
}

/// Turns what a parser said of the arguments of selection `flag` into the
/// selection's result: a parsed value is passed on, a refusal becomes an
/// error that names the flag and carries the parser's message.
pub fn parse_outcome<T>(flag: &str, parsed: Result<T, String>) -> (r: Result<
    T,
    SubcommandParseError,
>)
    ensures
        parsed is Ok ==> r is Ok && r->Ok_0 == parsed->Ok_0,
        parsed is Err ==> r is Err && r->Err_0.flag@ == flag@ && r->Err_0.message@
            == parse_failure_intro() + parsed->Err_0@,
{
    match parsed {
        Ok(value) => Ok(value),
        Err(cause) => {
            let mut message = String::from_str("Failed to parse subcommand: ");
            message.append(cause.as_str());
            Err(SubcommandParseError { flag: String::from_str(flag), message })
        },
    }
}

impl Selection {
    /// A selection for the field `name`, under its kebab-case flag.
    pub fn new(name: &str, enabled: bool) -> (s: Selection)
        ensures
            s.flag@ == kebab_case(name@),
            s.enabled == enabled,
    {
        Selection { flag: selection_flag(name), enabled }
    }

    /// The argument list of this selection, or `None` where the flag is not
    /// set: then nothing is partitioned.
    pub fn route(&self, extra_args: &Vec<String>) -> (r: Option<Vec<String>>)
        ensures
            r is Some == self.enabled,
            self.enabled ==> r->0.deep_view() == subcommand_argv(
                self.flag@,
                extra_args.deep_view(),
            ),
    {
        if self.enabled {
            Some(subcommand_args(self.flag.as_str(), extra_args))
        } else {
            None
        }
    }

    /// Parses this selection out of `extra_args`: `None` where the flag is not
    /// set. Where it is set, the result goes by what the parser says of the
    /// selection's argument list: what it parses is passed on, and its
    /// refusal is reported under this flag with its message.
    pub fn select<T: SubcommandParser>(&self, extra_args: &Vec<String>) -> (r: Result<
        Option<T>,
        SubcommandParseError,
    >)
        ensures
            !self.enabled ==> r is Ok && r->Ok_0 is None,
            self.enabled && r is Ok ==> r->Ok_0 is Some,
            r is Err ==> r->Err_0.flag@ == self.flag@ && has_intro(r->Err_0.message@),
            self.enabled ==> exists|args: Vec<String>, parsed: Result<T, String>|
                #![trigger call_ensures(T::try_parse_from, (&args,), parsed)]
                args.deep_view() == subcommand_argv(self.flag@, extra_args.deep_view())
                    && call_ensures(T::try_parse_from, (&args,), parsed) && match parsed {
                    Ok(value) => r == Ok::<Option<T>, SubcommandParseError>(Some(value)),
                    Err(cause) => r is Err && r->Err_0.message@ == parse_failure_intro()
                        + cause@,
                },
    {
        match self.route(extra_args) {
            None => Ok(None),
            Some(args) => {
                let parsed = T::try_parse_from(&args);
                proof {
                    assert(call_ensures(T::try_parse_from, (&args,), parsed));
                }
                match parse_outcome(self.flag.as_str(), parsed) {
                    Ok(value) => Ok(Some(value)),
                    Err(e) => {
                        proof {
                            assert(e.message@.subrange(0, parse_failure_intro().len() as int)
                                =~= parse_failure_intro());
                        }
                        Err(e)
                    },
                }
            },
        }
    }
}

/// Routes `extra_args` to every selection: at each index the argument list of
/// that selection, or `None` where its flag is not set. What one selection is
/// given does not depend on the others.
pub fn route_all(selections: &Vec<Selection>, extra_args: &Vec<String>) -> (routes: Vec<
    Option<Vec<String>>,
>)
    ensures
        routes.len() == selections.len(),
        forall|i: int|
            0 <= i < selections.len() ==> (#[trigger] routes[i] is Some) == selections[i].enabled,
        forall|i: int|
            0 <= i < selections.len() && selections[i].enabled ==> (#[trigger] routes[i])->0.deep_view()
                == subcommand_argv(selections[i].flag@, extra_args.deep_view()),
{
    let mut routes: Vec<Option<Vec<String>>> = Vec::new();
    let mut i: usize = 0;
    while i < selections.len()
        invariant
            i <= selections.len(),
            routes.len() == i,
            forall|k: int| 0 <= k < i ==> (#[trigger] routes[k] is Some) == selections[k].enabled,
            forall|k: int|
                0 <= k < i && selections[k].enabled ==> (#[trigger] routes[k])->0.deep_view()
                    == subcommand_argv(selections[k].flag@, extra_args.deep_view()),
        decreases selections.len() - i,
    {
        routes.push(selections[i].route(extra_args));
        i += 1;
    }
    routes
}

} // verus!
