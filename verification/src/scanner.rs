//! The trusted boundary to the `getopts` token scanner.
//!
//! Everything the rest of the crate knows about the scanner is stated
//! here: the registered option groups are modelled by [`groups_of`], the
//! result of a scan by [`scan_of`] and [`occurrences_of`], the rendered
//! help message by [`usage_of`], and each call the crate makes goes
//! through a contracted wrapper.
use vstd::prelude::*;
use vstd::utf8::encode_utf8;
use crate::decl::Arity;
use crate::decl::Occurrence;
use crate::resolve::captured;

verus! {

#[verifier::external_type_specification]
#[verifier::external_body]
pub struct ExScannerMatches(getopts::Matches);

/// The scanner's set of registered option groups. Its one field is the
/// `getopts` option table; the struct is opaque to the verifier, and
/// everything known about its contents is said by [`groups_of`] and
/// [`groups_wf`] through the wrappers below.
#[verifier::external_body]
pub struct Scanner {
    inner: getopts::Options,
}

/// One registered option group, as the scanner model carries it: the
/// long name, the short alias, the help text, the value placeholder,
/// whether a value token is taken, whether the option must occur, and
/// whether it may occur more than once.
pub type GroupSpec = (Seq<char>, Seq<char>, Seq<char>, Seq<char>, bool, bool, bool);

/// The option groups registered so far, in registration order.
pub uninterp spec fn groups_of(o: Scanner) -> Seq<GroupSpec>;

/// The registered groups are ones [`add_spec`] builds: each carries a
/// short alias of at most one ASCII character and a long name of at
/// least two bytes, and either requires a value token or takes none
/// (never the scanner's optional-value arity); the scanner itself keeps
/// its stock parsing style.
pub uninterp spec fn groups_wf(o: Scanner) -> bool;

/// What `getopts::Options::parse` returns for a scanner holding these
/// groups, run on these arguments: the occurrence lists — for each
/// defined option name, in input order, one element per occurrence,
/// holding the value token it carried or `None` for a bare flag
/// occurrence — or the characters of the scanner's failure message.
pub uninterp spec fn scan_of(groups: Seq<GroupSpec>, args: Seq<Seq<char>>) -> Result<
    Map<Seq<char>, Seq<Option<Seq<char>>>>,
    Seq<char>,
>;

/// The occurrence lists one scan reported, in the shape [`scan_of`]
/// gives them.
pub uninterp spec fn occurrences_of(m: getopts::Matches) -> Map<
    Seq<char>,
    Seq<Option<Seq<char>>>,
>;

/// What `getopts::Options::usage` returns for a scanner holding these
/// groups, under the given brief header.
pub uninterp spec fn usage_of(groups: Seq<GroupSpec>, brief: Seq<char>) -> Seq<char>;

/// What `str::to_uppercase` returns; it depends on the characters alone.
pub uninterp spec fn upper_of(s: Seq<char>) -> Seq<char>;

/// Any two groups that share a long name agree on whether a value token
/// is taken.
pub open spec fn arity_consistent(gs: Seq<GroupSpec>) -> bool {
    forall|i: int, j: int|
        0 <= i < gs.len() && 0 <= j < gs.len() && (#[trigger] gs[i]).0 == (#[trigger] gs[j]).0
            ==> gs[i].4 == gs[j].4
}

/// Relies on getopts::Options::new: a blank set of option groups.
#[verifier::external_body]
pub(crate) fn scanner_new() -> (o: Scanner)
    ensures
        groups_of(o) == Seq::<GroupSpec>::empty(),
        groups_wf(o),
{
    Scanner { inner: getopts::Options::new() }
}

/// Relies on getopts::Options::opt: appends one option group with the
/// given names, help text, placeholder, arity and occurrence
/// constraint.
#[verifier::external_body]
pub(crate) fn add_spec(
    o: &mut Scanner,
    short: &str,
    long: &str,
    help: &str,
    hint: &str,
    arity: Arity,
    occur: Occurrence,
)
    requires
        groups_wf(*old(o)),
        short@.len() == 0 || (short@.len() == 1 && short.is_ascii()),
        encode_utf8(long@).len() >= 2,
    ensures
        groups_wf(*final(o)),
        groups_of(*final(o)) == groups_of(*old(o)).push(
            (
                long@,
                short@,
                help@,
                hint@,
                arity is ValueRequired,
                occur is Required,
                occur is Multiple,
            ),
        ),
{
    let hasarg = match arity {
        Arity::NoValue => getopts::HasArg::No,
        Arity::ValueRequired => getopts::HasArg::Yes,
    };
    let occ = match occur {
        Occurrence::Optional => getopts::Occur::Optional,
        Occurrence::Required => getopts::Occur::Req,
        Occurrence::Multiple => getopts::Occur::Multi,
    };
    o.inner.opt(short, long, help, hint, hasarg, occ);
}

/// Relies on getopts::Options::parse: scans the arguments against the
/// registered groups, returning what [`scan_of`] names for them. On
/// success, every registered long name is defined in the matches, and —
/// when the groups agree on each name's arity — an occurrence of a
/// value-taking group carries a value token while an occurrence of a
/// flag group never does. On failure, the scanner's own message is
/// handed back.
#[verifier::external_body]
pub(crate) fn scan(o: &Scanner, args: &[String]) -> (r: Result<getopts::Matches, String>)
    requires
        groups_wf(*o),
    ensures
        match r {
            Ok(m) => {
                &&& scan_of(groups_of(*o), args.deep_view()) == Ok::<
                    Map<Seq<char>, Seq<Option<Seq<char>>>>,
                    Seq<char>,
                >(occurrences_of(m))
                &&& forall|i: int|
                    0 <= i < groups_of(*o).len() ==> occurrences_of(m).dom().contains(
                        (#[trigger] groups_of(*o)[i]).0,
                    )
                &&& arity_consistent(groups_of(*o)) ==> forall|i: int, j: int|
                    0 <= i < groups_of(*o).len() && 0 <= j < occurrences_of(m)[groups_of(
                        *o,
                    )[i].0].len() ==> ((#[trigger] occurrences_of(m)[groups_of(*o)[i].0][j])
                        is Some <==> groups_of(*o)[i].4)
            },
            Err(msg) => scan_of(groups_of(*o), args.deep_view()) == Err::<
                Map<Seq<char>, Seq<Option<Seq<char>>>>,
                Seq<char>,
            >(msg@),
        },
{
    match o.inner.parse(args) {
        Ok(m) => Ok(m),
        Err(f) => Err(f.to_string()),
    }
}

/// Relies on getopts::Matches::opt_present: the named option was matched
/// at least once. The name must be defined in the matches.
#[verifier::external_body]
pub(crate) fn match_present(m: &getopts::Matches, name: &str) -> (r: bool)
    requires
        occurrences_of(*m).dom().contains(name@),
    ensures
        r == (occurrences_of(*m)[name@].len() > 0),
{
    m.opt_present(name)
}

/// Relies on getopts::Matches::opt_str: the value token of the named
/// option's first occurrence, if that occurrence carried one.
#[verifier::external_body]
pub(crate) fn match_single(m: &getopts::Matches, name: &str) -> (r: Option<String>)
    requires
        occurrences_of(*m).dom().contains(name@),
    ensures
        match r {
            Some(v) => occurrences_of(*m)[name@].len() > 0 && occurrences_of(*m)[name@][0]
                == Some(v@),
            None => occurrences_of(*m)[name@].len() == 0 || occurrences_of(*m)[name@][0]
                is None,
        },
{
    m.opt_str(name)
}

/// Relies on getopts::Matches::opt_strs: the value tokens of all
/// occurrences of the named option, in input order.
#[verifier::external_body]
pub(crate) fn match_values(m: &getopts::Matches, name: &str) -> (r: Vec<String>)
    requires
        occurrences_of(*m).dom().contains(name@),
    ensures
        r.deep_view() == captured(occurrences_of(*m)[name@]),
{
    m.opt_strs(name)
}

/// Relies on getopts::Options::usage: formats the per-option help lines
/// under the given brief header; the result depends on the registered
/// groups and the brief alone.
#[verifier::external_body]
pub(crate) fn render_usage(o: &Scanner, brief: &String) -> (r: String)
    requires
        groups_wf(*o),
    ensures
        r@ == usage_of(groups_of(*o), brief@),
{
    o.inner.usage(brief)
}

/// Relies on str::to_uppercase: the result depends on the characters
/// alone.
#[verifier::external_body]
pub(crate) fn uppercase(s: &str) -> (r: String)
    ensures
        r@ == upper_of(s@),
{
    s.to_uppercase()
}

} // verus!
