//! The extraction engine: applies the parsed rules to a response body and
//! feeds the resolved values back into the environment. A rule whose
//! pointer does not resolve, or a body that is not JSON, is skipped without
//! aborting the remaining rules.

use vstd::prelude::*;

use crate::json::{json_wf, resolve_of, resolve_pointer};
use crate::rules::{parse_rules, spec_parse_rules};
use crate::strmap::StrMap;

verus! {

/// The value extraction stores under a name: what the last rule carrying
/// that name whose pointer resolves in the body extracts, if any rule does.
pub open spec fn spec_extracted(
    rules: Seq<(Seq<char>, Seq<char>)>,
    body: Seq<char>,
    k: Seq<char>,
) -> Option<Seq<char>>
    decreases rules.len(),
{
    if rules.len() == 0 {
        None
    } else if rules.last().0 == k && resolve_of(body, rules.last().1) is Some {
        resolve_of(body, rules.last().1)
    } else {
        spec_extracted(rules.drop_last(), body, k)
    }
}

/// Feeds one resolved rule into the environment: a resolved value is stored
/// under the rule's name, an unresolved rule changes nothing.
pub fn apply_resolved(name: String, resolved: Option<String>, env: &mut StrMap)
    requires
        old(env).wf(),
    ensures
        final(env).wf(),
        match resolved {
            Some(v) => forall|k: Seq<char>|
                #[trigger] final(env).spec_get(k) == if k == name@ {
                    Some(v@)
                } else {
                    old(env).spec_get(k)
                },
            None => *final(env) == *old(env),
        },
{
    match resolved {
        Some(v) => env.insert(name, v),
        None => {},
    }
}

/// Applies the rule text to a response body: every `name -> /pointer` rule
/// whose pointer resolves in the body's JSON stores the value's string form
/// under `name`, rules applying in line order so the last resolving rule
/// per name wins; every other name keeps its old value, and a body that is
/// not JSON leaves the environment untouched.
pub fn apply_rules(rules: &str, body: &str, env: &mut StrMap)
    requires
        old(env).wf(),
    ensures
        final(env).wf(),
        forall|k: Seq<char>|
            #[trigger] final(env).spec_get(k) == match spec_extracted(
                spec_parse_rules(rules@, 0),
                body@,
                k,
            ) {
                Some(v) => Some(v),
                None => old(env).spec_get(k),
            },
        !json_wf(body@) ==> *final(env) == *old(env),
{
    let parsed = parse_rules(rules);
    let ghost grs = spec_parse_rules(rules@, 0);
    let n = parsed.len();
    let mut i: usize = 0;
    proof {
        assert(grs.take(0) =~= Seq::<(Seq<char>, Seq<char>)>::empty());
    }
    while i < n
        invariant
            old(env).wf(),
            env.wf(),
            n == parsed@.len(),
            grs == parsed@.map_values(|p: (String, String)| (p.0@, p.1@)),
            i <= n,
            forall|k: Seq<char>|
                #[trigger] env.spec_get(k) == match spec_extracted(
                    grs.take(i as int),
                    body@,
                    k,
                ) {
                    Some(v) => Some(v),
                    None => old(env).spec_get(k),
                },
            !json_wf(body@) ==> *env == *old(env),
        decreases n - i,
    {
        let ghost gi = i as int;
        let name = parsed[i].0.clone();
        let resolved = resolve_pointer(body, parsed[i].1.as_str());
        proof {
            assert(grs[gi] == (parsed@[gi].0@, parsed@[gi].1@));
            assert(grs[gi].0 == name@);
        }
        apply_resolved(name, resolved, env);
        proof {
            assert(grs.take(gi + 1).last() == grs[gi]);
            assert(grs.take(gi + 1).drop_last() =~= grs.take(gi));
            assert forall|k: Seq<char>|
                #[trigger] env.spec_get(k) == match spec_extracted(
                    grs.take(gi + 1),
                    body@,
                    k,
                ) {
                    Some(v) => Some(v),
                    None => old(env).spec_get(k),
                } by {
                if k == grs[gi].0 && resolve_of(body@, grs[gi].1) is Some {
                    assert(spec_extracted(grs.take(gi + 1), body@, k) == resolve_of(
                        body@,
                        grs[gi].1,
                    ));
                } else {
                    assert(spec_extracted(grs.take(gi + 1), body@, k) == spec_extracted(
                        grs.take(gi),
                        body@,
                        k,
                    ));
                }
            }
        }
        i = i + 1;
    }
    proof {
        assert(grs.take(n as int) =~= grs);
    }
}

} // verus!
