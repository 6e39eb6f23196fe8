//! Declaring options and resolving raw arguments against them.
use vstd::prelude::*;
use vstd::utf8::encode_utf8;
use vstd::utf8::is_ascii_chars_encode_utf8;
use crate::decl::Arity;
use crate::decl::Occurrence;
use crate::decl::OptAction;
use crate::decl::OptionDef;
use crate::options::Options;
use crate::options::has_entry;
use crate::options::with_entry;
use crate::resolve::ResolveError;
use crate::resolve::captured;
use crate::resolve::present_in;
use crate::resolve::resolve_entries;
use crate::resolve::lemma_resolve_entries_keys;
use crate::resolve::lemma_resolve_entries_step;
use crate::resolve::lemma_resolve_entries_err_extends;
use crate::scanner::GroupSpec;
use crate::scanner::Scanner;
use crate::scanner::add_spec;
use crate::scanner::arity_consistent;
use crate::scanner::groups_of;
use crate::scanner::groups_wf;
use crate::scanner::scan_of;
use crate::scanner::usage_of;
use crate::scanner::match_present;
use crate::scanner::match_single;
use crate::scanner::match_values;
use crate::scanner::occurrences_of;
use crate::scanner::render_usage;
use crate::scanner::scan;
use crate::scanner::scanner_new;
use crate::scanner::upper_of;
use crate::scanner::uppercase;

verus! {

/// Why a parse ended without a result set.
#[derive(Debug)]
pub enum ParseError {
    /// Help was requested; the caller should print usage and stop
    /// successfully.
    HelpRequested,
    /// The scanner could not tokenize the arguments; the field holds the
    /// scanner's own message.
    SyntaxError { message: String },
    /// The named option is declared `multiple` and also carries a
    /// boolean action.
    ConflictingDeclaration { name: String },
    /// The named option was given, but no value could be obtained for
    /// it under its declared shape.
    MissingValue { name: String },
    /// The named option is required and multi-valued, yet none of its
    /// occurrences carried a value.
    RequiredMissing { name: String },
}


impl ParseError {
    /// The message for this outcome, phrased as the process-exiting
    /// adapter reports it.
    pub fn describe(&self) -> (r: String)
        ensures
            r@ == match self {
                ParseError::HelpRequested => "help requested"@,
                ParseError::SyntaxError { message } => message@,
                ParseError::ConflictingDeclaration { name } => name@
                    + " must not be a flag option."@,
                ParseError::MissingValue { name } => name@
                    + " must have a value, but only key like --"@ + name@,
                ParseError::RequiredMissing { name } => name@ + " is required option."@,
            },
    {
        match self {
            ParseError::HelpRequested => String::from_str("help requested"),
            ParseError::SyntaxError { message } => message.clone(),
            ParseError::ConflictingDeclaration { name } => {
                let mut msg = name.clone();
                msg.append(" must not be a flag option.");
                msg
            },
            ParseError::MissingValue { name } => {
                let mut msg = name.clone();
                msg.append(" must have a value, but only key like --");
                msg.append(name.as_str());
                msg
            },
            ParseError::RequiredMissing { name } => {
                let mut msg = name.clone();
                msg.append(" is required option.");
                msg
            },
        }
    }
}

/// Whether the returned error stands for the given resolution error,
/// naming the same option.
pub open spec fn reports(e: ParseError, r: ResolveError) -> bool {
    match (e, r) {
        (
            ParseError::ConflictingDeclaration { name },
            ResolveError::Conflicting { name: n },
        ) => name@ == n,
        (ParseError::MissingValue { name }, ResolveError::MissingValue { name: n }) => name@
            == n,
        (ParseError::RequiredMissing { name }, ResolveError::RequiredMissing { name: n }) => name@
            == n,
        _ => false,
    }
}

/// The long names of the declarations, in declaration order.
pub open spec fn decl_names(decls: Seq<OptionDef>) -> Seq<Seq<char>> {
    decls.map_values(|d: OptionDef| d.name@)
}

/// No two declarations share a name.
pub open spec fn decl_names_unique(decls: Seq<OptionDef>) -> bool {
    forall|i: int, j: int|
        0 <= i < j < decls.len() ==> (#[trigger] decls[i]).name@ != (#[trigger] decls[j]).name@
}

/// The scanner group that one declaration registers: its long name,
/// short alias, help text and uppercase placeholder, value-taking
/// unless the declaration is a boolean flag, occurring `Required` when
/// required, else `Multiple` when multi-valued, else `Optional`.
pub open spec fn group_of_decl(d: OptionDef) -> GroupSpec {
    (
        d.name@,
        d.short_name@,
        d.help@,
        d.uppercase_name@,
        d.action is None,
        d.required,
        !d.required && d.multiple,
    )
}

/// The implicit help group: optional, no value token.
pub open spec fn help_group() -> GroupSpec {
    ("help"@, "h"@, "show this help message and exit"@, ""@, false, false, false)
}

/// Whether some declaration is named "help".
pub open spec fn decls_name_help(decls: Seq<OptionDef>) -> bool {
    exists|i: int| 0 <= i < decls.len() && (#[trigger] decls[i]).name@ == "help"@
}

/// The scanner's groups mirror the declarations: one group per
/// declaration, in order, as [`group_of_decl`] gives it; any groups
/// after those are implicit help entries.
pub open spec fn groups_shape(gs: Seq<GroupSpec>, decls: Seq<OptionDef>) -> bool {
    &&& gs.len() >= decls.len()
    &&& forall|i: int| 0 <= i < decls.len() ==> gs[i] == group_of_decl(#[trigger] decls[i])
    &&& forall|i: int| decls.len() <= i < gs.len() ==> #[trigger] gs[i] == help_group()
}

/// Declares options and parses raw arguments against them, delegating
/// token-level scanning to the scanner it carries.
pub struct OptionParser {
    opts: Scanner,
    given_options: Vec<OptionDef>,
}

impl OptionParser {
    /// The declarations made so far, in declaration order.
    pub closed spec fn decls(&self) -> Seq<OptionDef> {
        self.given_options@
    }

    /// The declarations are well-formed and uniquely named, and the
    /// scanner's groups mirror them.
    pub closed spec fn wf(&self) -> bool {
        &&& groups_wf(self.opts)
        &&& forall|i: int|
            0 <= i < self.given_options@.len() ==> (#[trigger] self.given_options@[i]).wf()
        &&& decl_names_unique(self.given_options@)
        &&& groups_shape(groups_of(self.opts), self.given_options@)
        &&& decls_name_help(self.given_options@) ==> groups_of(self.opts).len()
            == self.given_options@.len()
    }

    /// The scanner's registered groups, in registration order.
    pub closed spec fn groups(&self) -> Seq<GroupSpec> {
        groups_of(self.opts)
    }

    /// No parse has happened yet: the scanner holds exactly one group
    /// per declaration, so further declarations may still be made.
    pub closed spec fn declaring(&self) -> bool {
        groups_of(self.opts).len() == self.given_options@.len()
    }

    /// A parser with no declarations.
    pub fn new() -> (r: Self)
        ensures
            r.wf(),
            r.declaring(),
            r.decls() == Seq::<OptionDef>::empty(),
            r.groups() == Seq::<GroupSpec>::empty(),
    {
        let r = Self { opts: scanner_new(), given_options: Vec::new() };
        proof {
            assert(r.given_options@ =~= Seq::<OptionDef>::empty());
        }
        r
    }

    /// Declares one option and registers a matching group with the
    /// scanner: no value token when `action` is set, else a required
    /// value token; occurrence `Required` when `required`, else
    /// `Multiple` when `multiple`, else `Optional`. Omitted attributes
    /// default to false, none, or empty. The name must be new to this
    /// parser, and all declarations must come before the first parse.
    pub fn add_option(
        &mut self,
        name: &str,
        short_name: &str,
        required: Option<bool>,
        multiple: Option<bool>,
        default: Option<&str>,
        action: Option<OptAction>,
        help: Option<&str>,
    )
        requires
            old(self).wf(),
            old(self).declaring(),
            encode_utf8(name@).len() >= 2,
            short_name@.len() == 0 || (short_name@.len() == 1 && short_name.is_ascii()),
            forall|i: int|
                0 <= i < old(self).decls().len() ==> (#[trigger] old(self).decls()[i]).name@
                    != name@,
        ensures
            final(self).wf(),
            final(self).declaring(),
            final(self).decls().len() == old(self).decls().len() + 1,
            final(self).decls().drop_last() == old(self).decls(),
            final(self).groups() == old(self).groups().push(
                group_of_decl(final(self).decls().last()),
            ),
            ({
                let d = final(self).decls().last();
                &&& d.name@ == name@
                &&& d.short_name@ == short_name@
                &&& d.required == (required is Some && required->0)
                &&& d.multiple == (multiple is Some && multiple->0)
                &&& (d.default is Some <==> default is Some)
                &&& (default is Some ==> d.default->0@ == default->0@)
                &&& d.action == action
                &&& d.help@ == (if help is Some {
                    help->0@
                } else {
                    Seq::<char>::empty()
                })
                &&& d.uppercase_name@ == upper_of(name@)
            }),
    {
        let mut option = OptionDef::new();
        option.name = name.to_owned();
        option.short_name = short_name.to_owned();
        option.required = match required {
            Some(v) => v,
            None => false,
        };
        option.multiple = match multiple {
            Some(v) => v,
            None => false,
        };
        option.default = match default {
            Some(v) => Some(v.to_owned()),
            None => None,
        };
        option.action = action;
        option.help = match help {
            Some(v) => v.to_owned(),
            None => String::new(),
        };
        option.uppercase_name = uppercase(name);

        let arity = if option.action.is_some() {
            Arity::NoValue
        } else {
            Arity::ValueRequired
        };
        let occur = if option.required {
            Occurrence::Required
        } else if option.multiple {
            Occurrence::Multiple
        } else {
            Occurrence::Optional
        };

        add_spec(
            &mut self.opts,
            short_name,
            name,
            option.help.as_str(),
            option.uppercase_name.as_str(),
            arity,
            occur,
        );
        let ghost gd = option;
        self.given_options.push(option);
        proof {
            let decls2 = self.given_options@;
            let gs = groups_of(self.opts);
            assert(decls2 == old(self).given_options@.push(gd));
            assert(decls2.drop_last() =~= old(self).given_options@);
            assert(decls2.last() == gd);
            assert(gd.name@ == name@);
            assert(gd.action == action);
            assert(arity is ValueRequired <==> gd.action is None);
            assert(occur is Required <==> gd.required);
            assert(occur is Multiple <==> (!gd.required && gd.multiple));
            assert(gs == groups_of(old(self).opts).push(group_of_decl(gd)));
            assert forall|i: int| 0 <= i < decls2.len() implies gs[i] == group_of_decl(
                #[trigger] decls2[i],
            ) by {
                if i < old(self).given_options@.len() {
                    assert(decls2[i] == old(self).given_options@[i]);
                    assert(gs[i] == groups_of(old(self).opts)[i]);
                }
            }
            assert(gd.short_name@ == short_name@);
            assert(gd.wf());
            assert forall|i: int| 0 <= i < decls2.len() implies (#[trigger] decls2[i]).wf() by {
                if i < old(self).given_options@.len() {
                    assert(decls2[i] == old(self).given_options@[i]);
                    assert(old(self).given_options@[i].wf());
                }
            }
            assert forall|i: int, j: int| 0 <= i < j < decls2.len() implies (
            #[trigger] decls2[i]).name@ != (#[trigger] decls2[j]).name@ by {
                assert(decls2[i] == old(self).given_options@[i]);
                if j < old(self).given_options@.len() {
                    assert(decls2[j] == old(self).given_options@[j]);
                } else {
                    assert(decls2[j] == gd);
                    assert(old(self).decls() == old(self).given_options@);
                    assert(old(self).decls()[i].name@ != name@);
                }
            }
        }
    }

    /// Tokenizes `args` — element 0 is the program name, the rest the
    /// arguments — and resolves the declarations against the result. A
    /// scanner that knows no option named "help" first gets the
    /// implicit `-h`/`--help` flag group. The outcome for every scan
    /// result is fixed by [`finish_parse`]; on success the entries are
    /// exactly what [`resolve_entries`] gives for some reported
    /// occurrence lists, and a `--help` or `-h` token among the
    /// arguments never yields a syntax error.
    pub fn parse_with_args(&mut self, args: Vec<String>) -> (r: Result<Options, ParseError>)
        requires
            old(self).wf(),
            args@.len() >= 1,
        ensures
            final(self).wf(),
            final(self).decls() == old(self).decls(),
            final(self).groups() == (if decls_name_help(old(self).decls()) {
                old(self).groups()
            } else {
                old(self).groups().push(help_group())
            }),
            ({
                let tail = args.deep_view().subrange(1, args.deep_view().len() as int);
                match scan_of(final(self).groups(), tail) {
                    Err(msg) => match r {
                        Err(ParseError::HelpRequested) => has_help_token(args.deep_view()),
                        Err(ParseError::SyntaxError { message }) => !has_help_token(
                            args.deep_view(),
                        ) && message@ == msg,
                        _ => false,
                    },
                    Ok(occ) => {
                        if present_in(occ, "help"@) {
                            r == Err::<Options, ParseError>(ParseError::HelpRequested)
                        } else {
                            match r {
                                Ok(o) => {
                                    &&& resolve_entries(old(self).decls(), occ) == Ok::<
                                        Seq<(Seq<char>, Seq<Seq<char>>)>,
                                        ResolveError,
                                    >(o.entries())
                                    &&& o.defined() == decl_names(old(self).decls())
                                    &&& o.wf()
                                },
                                Err(e) => {
                                    &&& resolve_entries(old(self).decls(), occ) is Err
                                    &&& reports(
                                        e,
                                        resolve_entries(old(self).decls(), occ)->Err_0,
                                    )
                                },
                            }
                        }
                    },
                }
            }),
    {
        let help_name = String::from_str("help");
        let mut has_help_decl = false;
        let mut i: usize = 0;
        while i < self.given_options.len()
            invariant
                i <= self.given_options@.len(),
                help_name@ == "help"@,
                self == old(self),
                has_help_decl == exists|j: int|
                    0 <= j < i && (#[trigger] self.given_options@[j]).name@ == "help"@,
            decreases self.given_options@.len() - i,
        {
            if self.given_options[i].name == help_name {
                has_help_decl = true;
            }
            i = i + 1;
        }
        if !has_help_decl {
            proof {
                reveal_strlit("help");
                reveal_strlit("h");
                assert("h"@.len() == 1);
                assert("h"@[0] == 'h');
                assert("help"@.len() == 4);
                assert(vstd::utf8::is_ascii_chars("help"@));
                is_ascii_chars_encode_utf8("help"@);
                assert(encode_utf8("help"@).len() == 4);
            }
            let ghost gs0 = groups_of(self.opts);
            add_spec(
                &mut self.opts,
                "h",
                "help",
                "show this help message and exit",
                "",
                Arity::NoValue,
                Occurrence::Optional,
            );
            proof {
                let gs = groups_of(self.opts);
                let ds = self.given_options@;
                assert(gs == gs0.push(help_group()));
                assert forall|k: int| 0 <= k < ds.len() implies gs[k] == group_of_decl(
                    #[trigger] ds[k],
                ) by {
                    assert(gs[k] == gs0[k]);
                }
                assert forall|k: int| ds.len() <= k < gs.len() implies #[trigger] gs[k]
                    == help_group() by {
                    if k < gs0.len() {
                        assert(gs[k] == gs0[k]);
                    }
                }
                assert(!decls_name_help(ds));
                assert(self.wf());
            }
        }

        let mut tail: Vec<String> = Vec::new();
        let mut k: usize = 1;
        while k < args.len()
            invariant
                1 <= k <= args@.len(),
                tail@.len() == k - 1,
                forall|j: int| 0 <= j < k - 1 ==> #[trigger] tail@[j] == args@[j + 1],
            decreases args@.len() - k,
        {
            tail.push(args[k].clone());
            k = k + 1;
        }

        let help_long = String::from_str("--help");
        let help_short = String::from_str("-h");
        let mut help_flag = false;
        let mut t: usize = 0;
        while t < tail.len()
            invariant
                t <= tail@.len(),
                help_long@ == "--help"@,
                help_short@ == "-h"@,
                help_flag == exists|j: int|
                    0 <= j < t && ((#[trigger] tail@[j])@ == "--help"@ || tail@[j]@
                        == "-h"@),
            decreases tail@.len() - t,
        {
            if tail[t] == help_long || tail[t] == help_short {
                help_flag = true;
            }
            t = t + 1;
        }
        proof {
            let av = args.deep_view();
            assert(av.len() == args@.len());
            assert forall|j: int| 1 <= j < av.len() implies #[trigger] av[j] == tail@[j - 1]@ by {
                assert(av[j] == args@[j].deep_view());
                assert(tail@[j - 1] == args@[j]);
            }
            if help_flag {
                let j = choose|j: int|
                    0 <= j < tail@.len() && ((#[trigger] tail@[j])@ == "--help"@ || tail@[j]@
                        == "-h"@);
                assert(av[j + 1] == tail@[j]@);
                assert(has_help_token(av));
            }
            if has_help_token(av) {
                let j = choose|j: int|
                    1 <= j < av.len() && ((#[trigger] av[j]) == "--help"@ || av[j] == "-h"@);
                assert(tail@[j - 1]@ == av[j]);
                assert(help_flag);
            }
        }

        let tail_slice = tail.as_slice();
        proof {
            let av = args.deep_view();
            let tailv = av.subrange(1, av.len() as int);
            assert(tail_slice@ == tail@);
            assert forall|j: int| 0 <= j < tailv.len() implies tail_slice.deep_view()[j]
                == tailv[j] by {
                assert(tail@[j] == args@[j + 1]);
                assert(tail_slice.deep_view()[j] == tail@[j].deep_view());
                assert(tailv[j] == av[j + 1]);
                assert(av[j + 1] == args@[j + 1].deep_view());
            }
            assert(tail_slice.deep_view() =~~= tailv);
        }
        let scanned = scan(&self.opts, tail_slice);
        let ghost g_scanned = scanned;
        proof {
            let gs = groups_of(self.opts);
            let ds = self.given_options@;
            assert(arity_consistent(gs)) by {
                assert forall|a: int, b: int|
                    0 <= a < gs.len() && 0 <= b < gs.len() && (#[trigger] gs[a]).0 == (
                    #[trigger] gs[b]).0 implies gs[a].4 == gs[b].4 by {
                    if a < ds.len() && b < ds.len() {
                        if a != b {
                            assert(ds[a].name@ != ds[b].name@);
                        }
                    } else if a < ds.len() && b >= ds.len() {
                        assert(gs[b] == help_group());
                        assert(ds[a].name@ == "help"@);
                        assert(decls_name_help(ds));
                        assert(gs.len() == ds.len());
                    } else if a >= ds.len() && b < ds.len() {
                        assert(gs[a] == help_group());
                        assert(ds[b].name@ == "help"@);
                        assert(decls_name_help(ds));
                        assert(gs.len() == ds.len());
                    }
                }
            }
            if g_scanned is Ok {
                let m = g_scanned->Ok_0;
                assert forall|i2: int| 0 <= i2 < ds.len() implies occurrences_of(m).dom()
                    .contains((#[trigger] ds[i2]).name@) by {
                    assert(gs[i2].0 == ds[i2].name@);
                }
                assert(occurrences_of(m).dom().contains("help"@)) by {
                    if decls_name_help(ds) {
                        let j = choose|j: int|
                            0 <= j < ds.len() && (#[trigger] ds[j]).name@ == "help"@;
                        assert(gs[j].0 == "help"@);
                    } else {
                        assert(gs.len() > ds.len());
                        assert(gs[gs.len() - 1] == help_group());
                    }
                }
                assert forall|i2: int, j2: int|
                    0 <= i2 < ds.len() && 0 <= j2 < occurrences_of(m)[ds[i2].name@].len()
                    implies ((#[trigger] occurrences_of(m)[ds[i2].name@][j2]) is Some <==> ds[i2].action
                    is None) by {
                    assert(gs[i2] == group_of_decl(ds[i2]));
                    assert(occurrences_of(m)[gs[i2].0][j2] is Some <==> gs[i2].4);
                }
                assert(matches_fit(m, ds));
            }
        }
        let r = finish_parse(&self.given_options, scanned, help_flag);
        proof {
            let av = args.deep_view();
            let tailv = av.subrange(1, av.len() as int);
            let gs2 = groups_of(self.opts);
            assert(tail_slice.deep_view() == tailv);
            if g_scanned is Ok {
                let m = g_scanned->Ok_0;
                let occ = occurrences_of(m);
                assert(scan_of(gs2, tailv) == Ok::<
                    Map<Seq<char>, Seq<Option<Seq<char>>>>,
                    Seq<char>,
                >(occ));
                if present_in(occ, "help"@) {
                    assert(r == Err::<Options, ParseError>(ParseError::HelpRequested));
                }
            } else {
                let msg = g_scanned->Err_0;
                assert(scan_of(gs2, tailv) == Err::<
                    Map<Seq<char>, Seq<Option<Seq<char>>>>,
                    Seq<char>,
                >(msg@));
                if help_flag {
                    assert(r == Err::<Options, ParseError>(ParseError::HelpRequested));
                } else {
                    assert(r == Err::<Options, ParseError>(
                        (ParseError::SyntaxError { message: msg }),
                    ));
                }
            }
        }
        r
    }

    /// Builds the brief usage line for the current declarations.
    pub fn usage_brief(&self, program_name: &String) -> (r: String)
        ensures
            r@ == brief_of(self.decls(), program_name@),
    {
        let mut brief = String::from_str("Usage: ");
        brief.append(program_name.as_str());
        proof {
            assert(self.given_options@.take(0) =~= Seq::<OptionDef>::empty());
        }
        let mut i: usize = 0;
        while i < self.given_options.len()
            invariant
                i <= self.given_options@.len(),
                brief@ == brief_of(self.given_options@.take(i as int), program_name@),
            decreases self.given_options@.len() - i,
        {
            let d = &self.given_options[i];
            let mut token = String::from_str("--");
            token.append(d.name.as_str());
            if d.action.is_none() {
                token.append(" ");
                token.append(d.uppercase_name.as_str());
            }
            if d.multiple {
                let base = token.clone();
                token.append(" ");
                token.append(base.as_str());
                token.append("...");
            }
            if !d.required {
                let mut wrapped = String::from_str("[");
                wrapped.append(token.as_str());
                wrapped.append("]");
                token = wrapped;
            }
            proof {
                assert(token@ =~= brief_token(self.given_options@[i as int]));
            }
            brief.append(" ");
            brief.append(token.as_str());
            proof {
                assert(self.given_options@.take(i as int + 1).drop_last() =~= self
                    .given_options@.take(i as int));
                assert(self.given_options@.take(i as int + 1).last() == self
                    .given_options@[i as int]);
                assert(brief@ =~= brief_of(
                    self.given_options@.take(i as int + 1),
                    program_name@,
                ));
            }
            i = i + 1;
        }
        proof {
            assert(self.given_options@.take(self.given_options@.len() as int) =~= self
                .given_options@);
        }
        brief
    }

    /// The full usage message: the scanner's rendering of its
    /// registered groups under the synthesized brief line.
    pub fn usage_string(&self, program_name: &String) -> (r: String)
        requires
            self.wf(),
        ensures
            r@ == usage_of(self.groups(), brief_of(self.decls(), program_name@)),
    {
        let brief = self.usage_brief(program_name);
        render_usage(&self.opts, &brief)
    }
}

/// The usage token of one declaration: `--name`, followed by the
/// uppercase placeholder unless the option is a boolean flag, doubled
/// with `...` when multi-valued, and bracketed when not required.
pub open spec fn brief_token(d: OptionDef) -> Seq<char> {
    let base = "--"@ + d.name@ + (if d.action is Some {
        Seq::<char>::empty()
    } else {
        " "@ + d.uppercase_name@
    });
    let multi = if d.multiple {
        base + " "@ + base + "..."@
    } else {
        base
    };
    if d.required {
        multi
    } else {
        "["@ + multi + "]"@
    }
}

/// The brief usage line: `Usage: <program>` followed by one token per
/// declaration, each preceded by a single space, in declaration order.
pub open spec fn brief_of(decls: Seq<OptionDef>, program: Seq<char>) -> Seq<char>
    decreases decls.len(),
{
    if decls.len() == 0 {
        "Usage: "@ + program
    } else {
        brief_of(decls.drop_last(), program) + " "@ + brief_token(decls.last())
    }
}

/// Whether a help token stands among the arguments proper (after the
/// program name).
pub open spec fn has_help_token(args: Seq<Seq<char>>) -> bool {
    exists|i: int| 1 <= i < args.len() && ((#[trigger] args[i]) == "--help"@ || args[i] == "-h"@)
}

/// The scan reported occurrence lists that fit the declarations: every
/// declared name is defined, and an occurrence of a declared option
/// carries a value token exactly when the declaration takes a value.
pub open spec fn matches_fit(m: getopts::Matches, decls: Seq<OptionDef>) -> bool {
    &&& forall|i: int|
        0 <= i < decls.len() ==> occurrences_of(m).dom().contains((#[trigger] decls[i]).name@)
    &&& forall|i: int, j: int|
        0 <= i < decls.len() && 0 <= j < occurrences_of(m)[decls[i].name@].len() ==> ((
        #[trigger] occurrences_of(m)[decls[i].name@][j]) is Some <==> decls[i].action is None)
}

/// Resolves each declaration, in declaration order, against the
/// occurrence lists of one scan: exactly the entries that
/// [`resolve_entries`] gives, or its first error.
pub fn resolve_all(decls: &Vec<OptionDef>, m: &getopts::Matches) -> (r: Result<
    Options,
    ParseError,
>)
    requires
        decl_names_unique(decls@),
        matches_fit(*m, decls@),
    ensures
        match r {
            Ok(o) => {
                &&& resolve_entries(decls@, occurrences_of(*m)) == Ok::<
                    Seq<(Seq<char>, Seq<Seq<char>>)>,
                    ResolveError,
                >(o.entries())
                &&& o.defined() == decl_names(decls@)
                &&& o.wf()
            },
            Err(e) => {
                &&& resolve_entries(decls@, occurrences_of(*m)) is Err
                &&& reports(e, resolve_entries(decls@, occurrences_of(*m))->Err_0)
            },
        },
{
    let ghost occ = occurrences_of(*m);
    let mut options = Options::new();
    let mut name_refs: Vec<&String> = Vec::new();
    let mut i: usize = 0;
    while i < decls.len()
        invariant
            i <= decls@.len(),
            name_refs@.len() == i,
            forall|k: int| 0 <= k < i ==> (#[trigger] name_refs@[k])@ == decls@[k].name@,
        decreases decls@.len() - i,
    {
        name_refs.push(&decls[i].name);
        i = i + 1;
    }
    options.set_defined_names(name_refs);
    proof {
        assert(options.defined() =~~= decl_names(decls@));
    }

    let mut idx: usize = 0;
    while idx < decls.len()
        invariant
            idx <= decls@.len(),
            decl_names_unique(decls@),
            matches_fit(*m, decls@),
            occ == occurrences_of(*m),
            options.wf(),
            options.defined() == decl_names(decls@),
            resolve_entries(decls@.take(idx as int), occ) == Ok::<
                Seq<(Seq<char>, Seq<Seq<char>>)>,
                ResolveError,
            >(options.entries()),
        decreases decls@.len() - idx,
    {
        let d = &decls[idx];
        let ghost es = options.entries();
        proof {
            assert(decls@[idx as int] == *d);
            assert(occ.dom().contains(d.name@));
            lemma_resolve_entries_step(decls@, occ, idx as int);
            lemma_resolve_entries_keys(decls@.take(idx as int), occ, es);
            assert(!has_entry(es, d.name@)) by {
                if has_entry(es, d.name@) {
                    let k = choose|k: int| 0 <= k < es.len() && (#[trigger] es[k]).0 == d.name@;
                    let j = choose|j: int|
                        0 <= j < decls@.take(idx as int).len() && es[k].0 == decls@.take(
                            idx as int,
                        )[j].name@;
                    assert(decls@[j].name@ != decls@[idx as int].name@);
                }
            }
        }
        if match_present(m, d.name.as_str()) {
            proof {
                assert(present_in(occ, d.name@));
            }
            if d.multiple {
                if d.action.is_some() {
                    proof {
                        lemma_resolve_entries_err_extends(decls@, occ, idx as int + 1);
                    }
                    return Err(ParseError::ConflictingDeclaration { name: d.name.clone() });
                }
                let opt_values = match_values(m, d.name.as_str());
                if opt_values.len() > 0 {
                    proof {
                        assert(opt_values.deep_view().len() == opt_values@.len());
                        assert(captured(occ[d.name@]).len() > 0);
                    }
                    options.insert(d.name.clone(), opt_values);
                    proof {
                        assert(options.entries() == with_entry(
                            es,
                            d.name@,
                            captured(occ[d.name@]),
                        ));
                        assert(options.entries() == es.push((d.name@, captured(occ[d.name@]))));
                    }
                } else {
                    proof {
                        assert(captured(occ[d.name@]).len() == 0);
                        lemma_resolve_entries_err_extends(decls@, occ, idx as int + 1);
                    }
                    if d.required {
                        return Err(ParseError::RequiredMissing { name: d.name.clone() });
                    }
                    return Err(ParseError::MissingValue { name: d.name.clone() });
                }
            } else {
                let opt_value = match_single(m, d.name.as_str());
                match opt_value {
                    Some(v) => {
                        proof {
                            assert(occ[d.name@][0] == Some(v@));
                        }
                        let mut vals: Vec<String> = Vec::new();
                        vals.push(v);
                        proof {
                            assert(vals.deep_view() =~~= seq![occ[d.name@][0]->0]);
                        }
                        options.insert(d.name.clone(), vals);
                        proof {
                            assert(options.entries() == es.push(
                                (d.name@, seq![occ[d.name@][0]->0]),
                            ));
                        }
                    },
                    None => {
                        proof {
                            assert(occ[d.name@][0] is None);
                        }
                        match &d.action {
                            Some(OptAction::StoreTrue) => {
                                let mut tv: Vec<String> = Vec::new();
                                tv.push(String::from_str("true"));
                                proof {
                                    assert(tv.deep_view() =~~= seq!["true"@]);
                                }
                                options.insert(d.name.clone(), tv);
                                proof {
                                    assert(options.entries() == es.push((d.name@, seq!["true"@])));
                                }
                            },
                            Some(OptAction::StoreFalse) => {
                                let mut fv: Vec<String> = Vec::new();
                                fv.push(String::from_str("false"));
                                proof {
                                    assert(fv.deep_view() =~~= seq!["false"@]);
                                }
                                options.insert(d.name.clone(), fv);
                                proof {
                                    assert(options.entries() == es.push((d.name@, seq!["false"@])));
                                }
                            },
                            None => {
                                proof {
                                    lemma_resolve_entries_err_extends(
                                        decls@,
                                        occ,
                                        idx as int + 1,
                                    );
                                }
                                return Err(ParseError::MissingValue { name: d.name.clone() });
                            },
                        }
                    },
                }
            }
        } else {
            proof {
                assert(!present_in(occ, d.name@));
            }
            match &d.default {
                Some(v) => {
                    let mut dv: Vec<String> = Vec::new();
                    dv.push(v.clone());
                    proof {
                        assert(dv.deep_view() =~~= seq![d.default->0@]);
                    }
                    options.insert(d.name.clone(), dv);
                    proof {
                        assert(options.entries() == es.push((d.name@, seq![d.default->0@])));
                    }
                },
                None => {},
            }
        }
        idx = idx + 1;
    }
    proof {
        assert(decls@.take(decls@.len() as int) =~= decls@);
    }
    Ok(options)
}

/// Finishes one parse from a scan's outcome: a scan failure becomes a
/// help request when a help token stood among the arguments, else the
/// scanner's error; a successful scan with help present becomes a help
/// request; anything else is resolved against the declarations.
pub fn finish_parse(
    decls: &Vec<OptionDef>,
    scanned: Result<getopts::Matches, String>,
    help_token_given: bool,
) -> (r: Result<Options, ParseError>)
    requires
        decl_names_unique(decls@),
        scanned matches Ok(m) ==> occurrences_of(m).dom().contains("help"@) && matches_fit(
            m,
            decls@,
        ),
    ensures
        match scanned {
            Err(msg) => r == Err::<Options, ParseError>(
                if help_token_given {
                    ParseError::HelpRequested
                } else {
                    (ParseError::SyntaxError { message: msg })
                },
            ),
            Ok(m) => {
                if present_in(occurrences_of(m), "help"@) {
                    r == Err::<Options, ParseError>(ParseError::HelpRequested)
                } else {
                    match r {
                        Ok(o) => {
                            &&& resolve_entries(decls@, occurrences_of(m)) == Ok::<
                                Seq<(Seq<char>, Seq<Seq<char>>)>,
                                ResolveError,
                            >(o.entries())
                            &&& o.defined() == decl_names(decls@)
                            &&& o.wf()
                        },
                        Err(e) => {
                            &&& resolve_entries(decls@, occurrences_of(m)) is Err
                            &&& reports(e, resolve_entries(decls@, occurrences_of(m))->Err_0)
                        },
                    }
                }
            },
        },
{
    match scanned {
        Err(message) => {
            if help_token_given {
                Err(ParseError::HelpRequested)
            } else {
                Err(ParseError::SyntaxError { message })
            }
        },
        Ok(m) => {
            if match_present(&m, "help") {
                return Err(ParseError::HelpRequested);
            }
            resolve_all(decls, &m)
        },
    }
}

} // verus!
