//! Resolution of the variables that the shell receives: the inherited ones,
//! read from a snapshot of the parent's environment, then the environment's
//! own values laid over them.
use vstd::prelude::*;

use crate::assoc::{
    has_entry, has_key, lemma_upsert_facts, pairs_view, unique_keys, upsert, upsert_all,
    upsert_spec,
};
use crate::config::{Vars, VarsView};
use crate::paths::views;

verus! {

/// The value of a variable in the parent's environment.
#[derive(Debug)]
pub enum EnvValue {
    Text(String),
    /// The value has no textual decoding.
    NotUnicode,
}

/// Why the variables cannot be resolved.
#[derive(Debug, PartialEq, Eq)]
pub enum ResolveError {
    /// A variable to inherit is absent from the parent and absence is an error.
    MissingVariable(String),
    /// A variable to inherit is present but is not text.
    InvalidVariableEncoding(String),
}

pub enum ResolveFailure {
    Missing(Seq<char>),
    Encoding(Seq<char>),
}

impl View for ResolveError {
    type V = ResolveFailure;

    open spec fn view(&self) -> ResolveFailure {
        match self {
            ResolveError::MissingVariable(n) => ResolveFailure::Missing(n@),
            ResolveError::InvalidVariableEncoding(n) => ResolveFailure::Encoding(n@),
        }
    }
}

/// The value of the first variable of the snapshot named `name`.
pub open spec fn env_get(env: Seq<(String, EnvValue)>, name: Seq<char>) -> Option<EnvValue>
    decreases env.len(),
{
    if env.len() == 0 {
        None
    } else if env[0].0@ == name {
        Some(env[0].1)
    } else {
        env_get(env.drop_first(), name)
    }
}

pub open spec fn is_text(v: Option<EnvValue>) -> bool {
    v matches Some(EnvValue::Text(_))
}

pub open spec fn is_not_unicode(v: Option<EnvValue>) -> bool {
    v matches Some(EnvValue::NotUnicode)
}

/// The inherited variables, taken in order; the first name that cannot be
/// taken ends the resolution with its error.
pub open spec fn inherit_spec(
    names: Seq<Seq<char>>,
    env: Seq<(String, EnvValue)>,
    exit_on_missing: bool,
) -> Result<Seq<(Seq<char>, Seq<char>)>, ResolveFailure>
    decreases names.len(),
{
    if names.len() == 0 {
        Ok(seq![])
    } else {
        match inherit_spec(names.drop_last(), env, exit_on_missing) {
            Err(e) => Err(e),
            Ok(m) => {
                let n = names.last();
                match env_get(env, n) {
                    None => if exit_on_missing {
                        Err(ResolveFailure::Missing(n))
                    } else {
                        Ok(m)
                    },
                    Some(EnvValue::NotUnicode) => Err(ResolveFailure::Encoding(n)),
                    Some(EnvValue::Text(val)) => Ok(upsert_spec(m, n, val@)),
                }
            },
        }
    }
}

/// The resolved variables: the inherited ones with `set` laid over them.
pub open spec fn resolve_spec(v: VarsView, env: Seq<(String, EnvValue)>) -> Result<
    Seq<(Seq<char>, Seq<char>)>,
    ResolveFailure,
> {
    match inherit_spec(v.inherit, env, v.exit_on_missing) {
        Err(e) => Err(e),
        Ok(m) => Ok(upsert_all(m, v.set)),
    }
}

proof fn lemma_inherit_err_extends(
    names: Seq<Seq<char>>,
    env: Seq<(String, EnvValue)>,
    exit_on_missing: bool,
    k: int,
)
    requires
        0 <= k <= names.len(),
        inherit_spec(names.subrange(0, k), env, exit_on_missing) is Err,
    ensures
        inherit_spec(names, env, exit_on_missing) == inherit_spec(
            names.subrange(0, k),
            env,
            exit_on_missing,
        ),
    decreases names.len() - k,
{
    if k < names.len() {
        assert(names.subrange(0, k + 1).drop_last() =~= names.subrange(0, k));
        lemma_inherit_err_extends(names, env, exit_on_missing, k + 1);
    } else {
        assert(names.subrange(0, k) =~= names);
    }
}

/// What an outcome of inheriting says of the names: each error names an
/// inherited variable that caused it, and a success took every name that
/// was text and nothing else.
pub proof fn lemma_inherit_facts(
    names: Seq<Seq<char>>,
    env: Seq<(String, EnvValue)>,
    exit_on_missing: bool,
)
    ensures
        match inherit_spec(names, env, exit_on_missing) {
            Ok(m) => unique_keys(m) && (forall|i: int|
                0 <= i < names.len() ==> is_text(#[trigger] env_get(env, names[i])) || (
                !exit_on_missing && env_get(env, names[i]) is None)) && (forall|k: Seq<char>|
                #[trigger] has_key(m, k) ==> names.contains(k) && is_text(env_get(env, k))),
            Err(ResolveFailure::Missing(x)) => exit_on_missing && names.contains(x) && env_get(
                env,
                x,
            ) is None,
            Err(ResolveFailure::Encoding(x)) => names.contains(x) && is_not_unicode(env_get(env, x)),
        },
    decreases names.len(),
{
    if names.len() > 0 {
        let p = names.drop_last();
        let n = names.last();
        lemma_inherit_facts(p, env, exit_on_missing);
        assert(names[names.len() - 1] == n);
        match inherit_spec(p, env, exit_on_missing) {
            Err(e) => {
                match e {
                    ResolveFailure::Missing(x) => {
                        let j = choose|j: int| 0 <= j < p.len() && p[j] == x;
                        assert(names[j] == x);
                    },
                    ResolveFailure::Encoding(x) => {
                        let j = choose|j: int| 0 <= j < p.len() && p[j] == x;
                        assert(names[j] == x);
                    },
                }
            },
            Ok(m) => {
                match env_get(env, n) {
                    None => {
                        if !exit_on_missing {
                            assert forall|k: Seq<char>| #[trigger] has_key(m, k) implies names.contains(
                                k,
                            ) && is_text(env_get(env, k)) by {
                                let j = choose|j: int| 0 <= j < p.len() && p[j] == k;
                                assert(names[j] == k);
                            }
                            assert forall|i: int| 0 <= i < names.len() implies is_text(
                                #[trigger] env_get(env, names[i]),
                            ) || (!exit_on_missing && env_get(env, names[i]) is None) by {
                                if i < p.len() {
                                    assert(names[i] == p[i]);
                                }
                            }
                        }
                    },
                    Some(EnvValue::NotUnicode) => {},
                    Some(EnvValue::Text(val)) => {
                        lemma_upsert_facts(m, n, val@);
                        let r = upsert_spec(m, n, val@);
                        assert forall|k: Seq<char>| #[trigger] has_key(r, k) implies names.contains(k)
                            && is_text(env_get(env, k)) by {
                            if k != n {
                                assert(has_key(m, k));
                                let j = choose|j: int| 0 <= j < p.len() && p[j] == k;
                                assert(names[j] == k);
                            }
                        }
                        assert forall|i: int| 0 <= i < names.len() implies is_text(
                            #[trigger] env_get(env, names[i]),
                        ) || (!exit_on_missing && env_get(env, names[i]) is None) by {
                            if i < p.len() {
                                assert(names[i] == p[i]);
                            }
                        }
                    },
                }
            },
        }
    }
}

/// Laying `entries` over `m` keeps every entry of `entries`, and adds no
/// key that neither had.
pub proof fn lemma_overlay(m: Seq<(Seq<char>, Seq<char>)>, entries: Seq<(Seq<char>, Seq<char>)>)
    requires
        unique_keys(m),
        unique_keys(entries),
    ensures
        unique_keys(upsert_all(m, entries)),
        forall|k: Seq<char>, v: Seq<char>|
            has_entry(entries, k, v) ==> #[trigger] has_entry(upsert_all(m, entries), k, v),
        forall|k: Seq<char>|
            #[trigger] has_key(upsert_all(m, entries), k) <==> (has_key(m, k) || has_key(
                entries,
                k,
            )),
    decreases entries.len(),
{
    if entries.len() > 0 {
        let p = entries.drop_last();
        let last = entries.last();
        assert(unique_keys(p)) by {
            assert forall|i: int, j: int|
                0 <= i < p.len() && 0 <= j < p.len() && #[trigger] p[i].0 == #[trigger] p[j].0 implies i
                == j by {
                assert(entries[i].0 == entries[j].0);
            }
        }
        lemma_overlay(m, p);
        let prev = upsert_all(m, p);
        lemma_upsert_facts(prev, last.0, last.1);
        let r = upsert_all(m, entries);
        assert(r == upsert_spec(prev, last.0, last.1));
        assert forall|k: Seq<char>, v: Seq<char>| has_entry(entries, k, v) implies #[trigger] has_entry(
            r,
            k,
            v,
        ) by {
            let i = choose|i: int| 0 <= i < entries.len() && #[trigger] entries[i] == (k, v);
            if i < entries.len() - 1 {
                assert(p[i] == (k, v));
                assert(has_entry(p, k, v));
                assert(k != last.0) by {
                    assert(entries[i].0 == k);
                    assert(entries[entries.len() - 1].0 == last.0);
                }
                assert(has_entry(prev, k, v));
            } else {
                assert((k, v) == last);
            }
        }
        assert forall|k: Seq<char>| #[trigger] has_key(r, k) <==> (has_key(m, k) || has_key(
            entries,
            k,
        )) by {
            if has_key(entries, k) {
                let i = choose|i: int| 0 <= i < entries.len() && #[trigger] entries[i].0 == k;
                if i < entries.len() - 1 {
                    assert(p[i].0 == k);
                }
            }
            if has_key(p, k) {
                let i = choose|i: int| 0 <= i < p.len() && #[trigger] p[i].0 == k;
                assert(entries[i].0 == k);
            }
            assert(entries[entries.len() - 1].0 == last.0);
        }
    }
}

/// With `exit_on_missing`, a parent that lacks a variable to inherit makes
/// the resolution fail with the missing-variable error for such a variable,
/// and no map comes out, provided no variable to inherit is present as
/// something other than text (that gives the encoding error instead).
pub proof fn law_missing_variable_fails(v: VarsView, env: Seq<(String, EnvValue)>, n: Seq<char>)
    requires
        v.exit_on_missing,
        v.inherit.contains(n),
        env_get(env, n) is None,
        forall|i: int| 0 <= i < v.inherit.len() ==> !is_not_unicode(#[trigger] env_get(env, v.inherit[i])),
    ensures
        match resolve_spec(v, env) {
            Err(ResolveFailure::Missing(m)) => v.inherit.contains(m) && env_get(env, m) is None,
            _ => false,
        },
{
    lemma_inherit_facts(v.inherit, env, v.exit_on_missing);
    let i = choose|i: int| 0 <= i < v.inherit.len() && v.inherit[i] == n;
    assert(env_get(env, v.inherit[i]) is None);
    match inherit_spec(v.inherit, env, v.exit_on_missing) {
        Err(ResolveFailure::Encoding(x)) => {
            let j = choose|j: int| 0 <= j < v.inherit.len() && v.inherit[j] == x;
            assert(!is_not_unicode(env_get(env, v.inherit[j])));
        },
        _ => {},
    }
}

/// Without `exit_on_missing`: the resolution succeeds unless a variable to
/// inherit is present as something other than text; every entry of `set`
/// is in the result; and a variable to inherit that the parent lacks and
/// `set` does not name is not in the result.
pub proof fn law_optional_missing_and_set_kept(v: VarsView, env: Seq<(String, EnvValue)>)
    requires
        !v.exit_on_missing,
        unique_keys(v.set),
    ensures
        resolve_spec(v, env) is Ok <==> (forall|i: int|
            0 <= i < v.inherit.len() ==> !is_not_unicode(#[trigger] env_get(env, v.inherit[i]))),
        resolve_spec(v, env) matches Ok(r) ==> (forall|k: Seq<char>, val: Seq<char>|
            has_entry(v.set, k, val) ==> #[trigger] has_entry(r, k, val)),
        resolve_spec(v, env) matches Ok(r) ==> (forall|n: Seq<char>|
            v.inherit.contains(n) && env_get(env, n) is None && !has_key(v.set, n) ==> !(
            #[trigger] has_key(r, n))),
{
    lemma_inherit_facts(v.inherit, env, v.exit_on_missing);
    match inherit_spec(v.inherit, env, v.exit_on_missing) {
        Ok(m) => {
            lemma_overlay(m, v.set);
            assert forall|i: int| 0 <= i < v.inherit.len() implies !is_not_unicode(
                #[trigger] env_get(env, v.inherit[i]),
            ) by {}
            assert forall|n: Seq<char>|
                v.inherit.contains(n) && env_get(env, n) is None && !has_key(v.set, n) implies !(
                #[trigger] has_key(upsert_all(m, v.set), n)) by {
                if has_key(m, n) {
                    assert(is_text(env_get(env, n)));
                }
            }
        },
        Err(ResolveFailure::Encoding(x)) => {
            let j = choose|j: int| 0 <= j < v.inherit.len() && v.inherit[j] == x;
            assert(is_not_unicode(env_get(env, v.inherit[j])));
        },
        Err(ResolveFailure::Missing(x)) => {},
    }
}

fn env_lookup<'a>(env: &'a Vec<(String, EnvValue)>, name: &str) -> (r: Option<&'a EnvValue>)
    ensures
        match r {
            Some(v) => env_get(env@, name@) == Some(*v),
            None => env_get(env@, name@) is None,
        },
{
    let mut i: usize = 0;
    proof {
        assert(env@.subrange(0, env@.len() as int) =~= env@);
    }
    while i < env.len()
        invariant
            i <= env@.len(),
            env_get(env@, name@) == env_get(env@.subrange(i as int, env@.len() as int), name@),
        decreases env@.len() - i,
    {
        let ghost rest = env@.subrange(i as int, env@.len() as int);
        if crate::assoc::text_eq(env[i].0.as_str(), name) {
            return Some(&env[i].1);
        }
        proof {
            assert(rest.drop_first() =~= env@.subrange(i + 1, env@.len() as int));
        }
        i = i + 1;
    }
    None
}

impl Vars {
    /// The variables of the shell, given a snapshot of the parent's
    /// environment: each name of `inherit` in order, then `set` laid over
    /// them. A name the parent lacks fails the whole resolution when
    /// `exit_on_missing` holds and is skipped otherwise; a value that is not
    /// text always fails it. The result has each name once.
    pub fn to_env(&self, env: &Vec<(String, EnvValue)>) -> (r: Result<
        Vec<(String, String)>,
        ResolveError,
    >)
        ensures
            match r {
                Ok(m) => resolve_spec(self@, env@) == Ok::<_, ResolveFailure>(pairs_view(m@))
                    && unique_keys(pairs_view(m@)),
                Err(e) => resolve_spec(self@, env@) == Err::<Seq<(Seq<char>, Seq<char>)>, _>(e@),
            },
    {
        let ghost names = views(self.inherit@);
        let mut out: Vec<(String, String)> = Vec::new();
        let mut i: usize = 0;
        proof {
            assert(pairs_view(out@) =~= seq![]);
            assert(names.subrange(0, 0) =~= seq![]);
        }
        while i < self.inherit.len()
            invariant
                names == views(self.inherit@),
                i <= self.inherit@.len(),
                unique_keys(pairs_view(out@)),
                inherit_spec(names.subrange(0, i as int), env@, self.exit_on_missing) == Ok::<
                    _,
                    ResolveFailure,
                >(pairs_view(out@)),
            decreases self.inherit@.len() - i,
        {
            let name = &self.inherit[i];
            proof {
                assert(names.subrange(0, i + 1).drop_last() =~= names.subrange(0, i as int));
                assert(names.subrange(0, i + 1).last() == name@);
            }
            match env_lookup(env, name.as_str()) {
                None => {
                    if self.exit_on_missing {
                        proof {
                            lemma_inherit_err_extends(names, env@, self.exit_on_missing, i + 1);
                        }
                        return Err(ResolveError::MissingVariable(name.clone()));
                    }
                },
                Some(EnvValue::NotUnicode) => {
                    proof {
                        lemma_inherit_err_extends(names, env@, self.exit_on_missing, i + 1);
                    }
                    return Err(ResolveError::InvalidVariableEncoding(name.clone()));
                },
                Some(EnvValue::Text(val)) => {
                    upsert(&mut out, name.clone(), val.clone());
                },
            }
            i = i + 1;
        }
        proof {
            assert(names.subrange(0, i as int) =~= names);
        }
        let ghost base = pairs_view(out@);
        let ghost set = pairs_view(self.set@);
        let mut j: usize = 0;
        proof {
            assert(set.subrange(0, 0) =~= seq![]);
        }
        while j < self.set.len()
            invariant
                set == pairs_view(self.set@),
                j <= self.set@.len(),
                unique_keys(pairs_view(out@)),
                pairs_view(out@) == upsert_all(base, set.subrange(0, j as int)),
            decreases self.set@.len() - j,
        {
            proof {
                assert(set.subrange(0, j + 1).drop_last() =~= set.subrange(0, j as int));
            }
            upsert(&mut out, self.set[j].0.clone(), self.set[j].1.clone());
            j = j + 1;
        }
        proof {
            assert(set.subrange(0, j as int) =~= set);
        }
        Ok(out)
    }
}

} // verus!
