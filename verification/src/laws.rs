//! The resolution laws, stated and proved once for all inputs.
use vstd::prelude::*;
use crate::decl::OptAction;
use crate::decl::OptionDef;
use crate::options::entry_index;
use crate::options::entry_value;
use crate::options::has_entry;
use crate::options::keys_unique;
use crate::options::lemma_entry_at;
use crate::parser::decl_names_unique;
use crate::resolve::ResolveError;
use crate::resolve::captured;
use crate::resolve::lemma_resolve_entries_keys;
use crate::resolve::present_in;
use crate::resolve::resolve_entries;
use crate::resolve::resolve_one;

verus! {

/// With uniquely named declarations, a successful resolution never
/// repeats a key.
pub proof fn lemma_resolution_keys_unique(
    decls: Seq<OptionDef>,
    m: Map<Seq<char>, Seq<Option<Seq<char>>>>,
    es: Seq<(Seq<char>, Seq<Seq<char>>)>,
)
    requires
        decl_names_unique(decls),
        resolve_entries(decls, m) == Ok::<Seq<(Seq<char>, Seq<Seq<char>>)>, ResolveError>(es),
    ensures
        keys_unique(es),
    decreases decls.len(),
{
    if decls.len() == 0 {
    } else {
        let rest = decls.drop_last();
        let last = decls.last();
        let prefix = resolve_entries(rest, m)->Ok_0;
        assert forall|a: int, b: int| 0 <= a < b < rest.len() implies (
        #[trigger] rest[a]).name@ != (#[trigger] rest[b]).name@ by {
            assert(rest[a] == decls[a] && rest[b] == decls[b]);
        }
        lemma_resolution_keys_unique(rest, m, prefix);
        lemma_resolve_entries_keys(rest, m, prefix);
        match resolve_one(last, m) {
            Ok(Some(vals)) => {
                assert(es == prefix.push((last.name@, vals)));
                assert forall|a: int, b: int|
                    0 <= a < b < es.len() implies (#[trigger] es[a]).0 != (
                #[trigger] es[b]).0 by {
                    assert(es[a] == prefix[a]);
                    if b < prefix.len() {
                        assert(es[b] == prefix[b]);
                    } else {
                        assert(es[b].0 == last.name@);
                        let j = choose|j: int|
                            0 <= j < rest.len() && prefix[a].0 == rest[j].name@;
                        assert(rest[j] == decls[j]);
                        assert(decls[j].name@ != last.name@);
                    }
                }
            },
            Ok(None) => {
                assert(es == prefix);
            },
            Err(_) => {},
        }
    }
}

/// Each uniquely named declaration resolves independently: in a
/// successful resolution, the entry under a declaration's name is
/// exactly what [`resolve_one`] gives for it, and a declaration that
/// resolves to the absent value has no entry at all.
pub proof fn lemma_resolution_entry_per_decl(
    decls: Seq<OptionDef>,
    m: Map<Seq<char>, Seq<Option<Seq<char>>>>,
    es: Seq<(Seq<char>, Seq<Seq<char>>)>,
    i: int,
)
    requires
        decl_names_unique(decls),
        resolve_entries(decls, m) == Ok::<Seq<(Seq<char>, Seq<Seq<char>>)>, ResolveError>(es),
        0 <= i < decls.len(),
    ensures
        match resolve_one(decls[i], m) {
            Ok(Some(vals)) => has_entry(es, decls[i].name@) && entry_value(
                es,
                decls[i].name@,
            ) == vals,
            Ok(None) => !has_entry(es, decls[i].name@),
            Err(_) => false,
        },
    decreases decls.len(),
{
    let rest = decls.drop_last();
    let last = decls.last();
    let prefix = resolve_entries(rest, m)->Ok_0;
    let name = decls[i].name@;
    assert forall|a: int, b: int| 0 <= a < b < rest.len() implies (
    #[trigger] rest[a]).name@ != (#[trigger] rest[b]).name@ by {
        assert(rest[a] == decls[a] && rest[b] == decls[b]);
    }
    lemma_resolution_keys_unique(decls, m, es);
    lemma_resolution_keys_unique(rest, m, prefix);
    lemma_resolve_entries_keys(rest, m, prefix);
    if i < decls.len() - 1 {
        lemma_resolution_entry_per_decl(rest, m, prefix, i);
        assert(rest[i] == decls[i]);
        assert(last.name@ != name);
        match resolve_one(decls[i], m) {
            Ok(Some(vals)) => {
                assert(has_entry(prefix, name));
                let jp = entry_index(prefix, name);
                assert(0 <= jp < prefix.len() && prefix[jp].0 == name);
                assert(prefix[jp].1 == entry_value(prefix, name));
                match resolve_one(last, m) {
                    Ok(Some(lv)) => {
                        assert(es == prefix.push((last.name@, lv)));
                        assert(es[jp] == prefix[jp]);
                        lemma_entry_at(es, name, jp);
                    },
                    Ok(None) => {
                        assert(es == prefix);
                    },
                    Err(_) => {},
                }
            },
            Ok(None) => {
                match resolve_one(last, m) {
                    Ok(Some(lv)) => {
                        assert(es == prefix.push((last.name@, lv)));
                        if has_entry(es, name) {
                            let j = choose|j: int|
                                0 <= j < es.len() && (#[trigger] es[j]).0 == name;
                            if j < prefix.len() {
                                assert(prefix[j] == es[j]);
                                assert(has_entry(prefix, name));
                            } else {
                                assert(es[j].0 == last.name@);
                            }
                        }
                    },
                    Ok(None) => {
                        assert(es == prefix);
                    },
                    Err(_) => {},
                }
            },
            Err(_) => {},
        }
    } else {
        assert(decls[i] == last);
        assert forall|k: int| 0 <= k < prefix.len() implies (#[trigger] prefix[k]).0
            != last.name@ by {
            let j = choose|j: int| 0 <= j < rest.len() && prefix[k].0 == rest[j].name@;
            assert(rest[j] == decls[j]);
            assert(decls[j].name@ != last.name@);
        }
        match resolve_one(last, m) {
            Ok(Some(vals)) => {
                assert(es == prefix.push((last.name@, vals)));
                assert(es[es.len() - 1] == (last.name@, vals));
                lemma_entry_at(es, last.name@, es.len() - 1);
            },
            Ok(None) => {
                assert(es == prefix);
                if has_entry(es, last.name@) {
                    let k = choose|k: int|
                        0 <= k < es.len() && (#[trigger] es[k]).0 == last.name@;
                    assert(prefix[k].0 != last.name@);
                }
            },
            Err(_) => {},
        }
    }
}

/// A declared option that is neither required to be present nor given
/// in the input and carries no default resolves to the absent value —
/// never to an error.
pub proof fn lemma_absent_without_default_is_absent(
    d: OptionDef,
    m: Map<Seq<char>, Seq<Option<Seq<char>>>>,
)
    requires
        !present_in(m, d.name@),
        d.default is None,
    ensures
        resolve_one(d, m) == Ok::<Option<Seq<Seq<char>>>, ResolveError>(None),
{
}

/// A declared option with a default that is absent from the input
/// resolves to exactly that default, as a single-element value list.
pub proof fn lemma_absent_with_default_resolves_default(
    d: OptionDef,
    m: Map<Seq<char>, Seq<Option<Seq<char>>>>,
)
    requires
        !present_in(m, d.name@),
        d.default is Some,
    ensures
        resolve_one(d, m) == Ok::<Option<Seq<Seq<char>>>, ResolveError>(
            Some(seq![d.default->0@]),
        ),
{
}

/// A single-valued boolean option given as a bare flag — every reported
/// occurrence carries no value token — resolves to the literal string
/// `"true"` under `StoreTrue` and `"false"` under `StoreFalse`.
pub proof fn lemma_bare_flag_resolves_boolean(
    d: OptionDef,
    m: Map<Seq<char>, Seq<Option<Seq<char>>>>,
)
    requires
        present_in(m, d.name@),
        !d.multiple,
        d.action is Some,
        forall|j: int| 0 <= j < m[d.name@].len() ==> (#[trigger] m[d.name@][j]) is None,
    ensures
        resolve_one(d, m) == Ok::<Option<Seq<Seq<char>>>, ResolveError>(
            Some(
                seq![
                    if d.action == Some(OptAction::StoreTrue) {
                        "true"@
                    } else {
                        "false"@
                    },
                ],
            ),
        ),
{
    assert(m[d.name@][0] is None);
}

/// A multi-valued, non-boolean option whose occurrences carried N ≥ 1
/// values resolves to exactly those N values, in input order.
pub proof fn lemma_multiple_resolves_all_values(
    d: OptionDef,
    m: Map<Seq<char>, Seq<Option<Seq<char>>>>,
)
    requires
        present_in(m, d.name@),
        d.multiple,
        d.action is None,
        captured(m[d.name@]).len() >= 1,
    ensures
        resolve_one(d, m) == Ok::<Option<Seq<Seq<char>>>, ResolveError>(
            Some(captured(m[d.name@])),
        ),
{
}

/// A declaration that is both multi-valued and boolean fails with a
/// conflicting-declaration error as soon as the option is present in
/// the input.
pub proof fn lemma_conflicting_declaration_fails(
    d: OptionDef,
    m: Map<Seq<char>, Seq<Option<Seq<char>>>>,
)
    requires
        present_in(m, d.name@),
        d.multiple,
        d.action is Some,
    ensures
        resolve_one(d, m) == Err::<Option<Seq<Seq<char>>>, ResolveError>(
            (ResolveError::Conflicting { name: d.name@ }),
        ),
{
}

} // verus!
