//! The resolution rules, as specification functions.
//!
//! [`resolve_one`] says what a single declaration resolves to, given the
//! occurrence lists a scan reported; [`resolve_entries`] folds that over
//! a declaration list in order, stopping at the first error. The
//! executable resolution in [`crate::parser`] is proved to return
//! exactly these results.
use vstd::prelude::*;
use crate::decl::OptAction;
use crate::decl::OptionDef;

verus! {

/// Why a scan's matches could not be resolved against the declarations.
pub enum ResolveError {
    /// The named option is declared `multiple` and also carries a
    /// boolean action; such a declaration may never be used.
    Conflicting { name: Seq<char> },
    /// The named option was given, but no value could be obtained for it
    /// under its declared shape.
    MissingValue { name: Seq<char> },
    /// The named option is required and multi-valued, yet none of its
    /// occurrences carried a value.
    RequiredMissing { name: Seq<char> },
}

/// The value tokens among one option's occurrences, in input order.
pub open spec fn captured(occs: Seq<Option<Seq<char>>>) -> Seq<Seq<char>> {
    occs.filter_map(|o: Option<Seq<char>>| o)
}

/// Whether the scan reported the named option at all.
pub open spec fn present_in(
    m: Map<Seq<char>, Seq<Option<Seq<char>>>>,
    name: Seq<char>,
) -> bool {
    m.dom().contains(name) && m[name].len() > 0
}

/// What one declaration resolves to, given the reported occurrences:
/// `Ok(Some(values))` when the option resolves to values, `Ok(None)`
/// when it is absent (not given, no default), and an error when its
/// occurrences cannot be reconciled with its declared shape.
pub open spec fn resolve_one(d: OptionDef, m: Map<Seq<char>, Seq<Option<Seq<char>>>>) -> Result<
    Option<Seq<Seq<char>>>,
    ResolveError,
> {
    if present_in(m, d.name@) {
        if d.multiple {
            if d.action is Some {
                Err(ResolveError::Conflicting { name: d.name@ })
            } else if captured(m[d.name@]).len() > 0 {
                Ok(Some(captured(m[d.name@])))
            } else if d.required {
                Err(ResolveError::RequiredMissing { name: d.name@ })
            } else {
                Err(ResolveError::MissingValue { name: d.name@ })
            }
        } else {
            if m[d.name@][0] is Some {
                Ok(Some(seq![m[d.name@][0]->0]))
            } else {
                match d.action {
                    Some(OptAction::StoreTrue) => Ok(Some(seq!["true"@])),
                    Some(OptAction::StoreFalse) => Ok(Some(seq!["false"@])),
                    None => Err(ResolveError::MissingValue { name: d.name@ }),
                }
            }
        }
    } else {
        match d.default {
            Some(v) => Ok(Some(seq![v@])),
            None => Ok(None),
        }
    }
}

/// The resolved (name, values) entries for a declaration list, in
/// declaration order; the first declaration that fails decides the
/// error.
pub open spec fn resolve_entries(
    decls: Seq<OptionDef>,
    m: Map<Seq<char>, Seq<Option<Seq<char>>>>,
) -> Result<Seq<(Seq<char>, Seq<Seq<char>>)>, ResolveError>
    decreases decls.len(),
{
    if decls.len() == 0 {
        Ok(Seq::empty())
    } else {
        match resolve_entries(decls.drop_last(), m) {
            Err(e) => Err(e),
            Ok(prefix) => match resolve_one(decls.last(), m) {
                Err(e) => Err(e),
                Ok(None) => Ok(prefix),
                Ok(Some(vals)) => Ok(prefix.push((decls.last().name@, vals))),
            },
        }
    }
}

/// Resolving one more declaration appends that declaration's entry to
/// the prefix's entries, or surfaces that declaration's error.
pub proof fn lemma_resolve_entries_step(
    decls: Seq<OptionDef>,
    m: Map<Seq<char>, Seq<Option<Seq<char>>>>,
    i: int,
)
    requires
        0 <= i < decls.len(),
    ensures
        resolve_entries(decls.take(i + 1), m) == (match resolve_entries(decls.take(i), m) {
            Err(e) => Err::<Seq<(Seq<char>, Seq<Seq<char>>)>, ResolveError>(e),
            Ok(prefix) => match resolve_one(decls[i], m) {
                Err(e) => Err(e),
                Ok(None) => Ok(prefix),
                Ok(Some(vals)) => Ok(prefix.push((decls[i].name@, vals))),
            },
        }),
{
    assert(decls.take(i + 1).drop_last() =~= decls.take(i));
    assert(decls.take(i + 1).last() == decls[i]);
}

/// Once a prefix of the declarations fails to resolve, the whole list
/// fails with that same error.
pub proof fn lemma_resolve_entries_err_extends(
    decls: Seq<OptionDef>,
    m: Map<Seq<char>, Seq<Option<Seq<char>>>>,
    i: int,
)
    requires
        0 <= i <= decls.len(),
        resolve_entries(decls.take(i), m) is Err,
    ensures
        resolve_entries(decls, m) == resolve_entries(decls.take(i), m),
    decreases decls.len() - i,
{
    if i == decls.len() {
        assert(decls.take(i) =~= decls);
    } else {
        lemma_resolve_entries_step(decls, m, i);
        lemma_resolve_entries_err_extends(decls, m, i + 1);
    }
}

/// Every resolved entry is keyed by the name of one of the
/// declarations.
pub proof fn lemma_resolve_entries_keys(
    decls: Seq<OptionDef>,
    m: Map<Seq<char>, Seq<Option<Seq<char>>>>,
    es: Seq<(Seq<char>, Seq<Seq<char>>)>,
)
    requires
        resolve_entries(decls, m) == Ok::<Seq<(Seq<char>, Seq<Seq<char>>)>, ResolveError>(es),
    ensures
        forall|k: int|
            0 <= k < es.len() ==> exists|j: int|
                0 <= j < decls.len() && (#[trigger] es[k]).0 == decls[j].name@,
    decreases decls.len(),
{
    if decls.len() == 0 {
    } else {
        let rest = decls.drop_last();
        match resolve_entries(rest, m) {
            Err(_) => {},
            Ok(prefix) => {
                lemma_resolve_entries_keys(rest, m, prefix);
                assert forall|k: int| 0 <= k < es.len() implies exists|j: int|
                    0 <= j < decls.len() && (#[trigger] es[k]).0 == decls[j].name@ by {
                    if k < prefix.len() {
                        assert(es[k] == prefix[k]);
                        let j = choose|j: int|
                            0 <= j < rest.len() && prefix[k].0 == rest[j].name@;
                        assert(rest[j] == decls[j]);
                        assert(0 <= j < decls.len() && es[k].0 == decls[j].name@);
                    } else {
                        let j = decls.len() - 1;
                        assert(es[k].0 == decls[j].name@);
                    }
                }
            },
        }
    }
}

} // verus!
