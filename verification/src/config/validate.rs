//! Checks of a configuration's components: unique names and globs that compile.
use vstd::prelude::*;
use crate::config::types::{Component, ComponentView, Config, ConfigView, components_view};
use crate::domain::error::{ConfigError, ConfigErrorView};
use crate::domain::globs::{glob_new, glob_new_error};
use crate::domain::matcher::{first_invalid_glob, first_invalid_in};
use crate::domain::text::{debug_quote, debug_quoted, strings_view};

verus! {

/// Some component before position `k` has the name of component `k`.
pub open spec fn name_seen_before(cs: Seq<ComponentView>, k: int) -> bool {
    exists|i: int| 0 <= i < k && cs[i].name == cs[k].name
}

/// The duplicate-name error text for a name.
pub open spec fn duplicate_message(name: Seq<char>) -> Seq<char> {
    "duplicate component name: "@ + debug_quoted(name)
}

/// The outcome of validating components in order: the first component whose name
/// repeats an earlier one, or, before that, the first glob that does not compile, is
/// reported; otherwise success.
pub open spec fn spec_validate(cs: Seq<ComponentView>) -> Result<(), ConfigErrorView>
    decreases cs.len(),
{
    if cs.len() == 0 {
        Ok(())
    } else {
        match spec_validate(cs.drop_last()) {
            Err(e) => Err(e),
            Ok(_) => {
                let k = cs.len() - 1;
                let c = cs[k];
                if name_seen_before(cs, k) {
                    Err(ConfigErrorView::Invalid(duplicate_message(c.name)))
                } else {
                    match first_invalid_in(c.globs) {
                        Some(j) => Err(
                            ConfigErrorView::InvalidGlob(
                                c.name,
                                c.globs[j],
                                glob_new_error(c.globs[j])->0,
                            ),
                        ),
                        None => Ok(()),
                    }
                }
            },
        }
    }
}

/// The value of a validation result.
pub open spec fn validate_result_view(r: Result<(), ConfigError>) -> Result<(), ConfigErrorView> {
    match r {
        Ok(_) => Ok(()),
        Err(e) => Err(e@),
    }
}

/// Validation succeeds exactly when component names are pairwise distinct and every
/// glob pattern compiles.
pub proof fn lemma_validate_ok_iff(cs: Seq<ComponentView>)
    ensures
        spec_validate(cs) is Ok <==> ((forall|i: int, j: int|
            0 <= i < j < cs.len() ==> cs[i].name != cs[j].name) && first_invalid_glob(cs) is None),
    decreases cs.len(),
{
    if cs.len() > 0 {
        let d = cs.drop_last();
        lemma_validate_ok_iff(d);
        let k = cs.len() - 1;
        if spec_validate(cs) is Ok {
            assert forall|i: int, j: int| 0 <= i < j < cs.len() implies cs[i].name != cs[j].name by {
                if j < k {
                    assert(d[i] == cs[i] && d[j] == cs[j]);
                } else {
                    assert(!name_seen_before(cs, k));
                }
            }
        }
        if (forall|i: int, j: int| 0 <= i < j < cs.len() ==> cs[i].name != cs[j].name)
            && first_invalid_glob(cs) is None {
            assert forall|i: int, j: int| 0 <= i < j < d.len() implies d[i].name != d[j].name by {
                assert(d[i] == cs[i] && d[j] == cs[j]);
            }
            assert(!name_seen_before(cs, k));
        }
    }
}

proof fn lemma_validate_step(cs: Seq<ComponentView>, k: int)
    requires
        0 <= k < cs.len(),
    ensures
        cs.take(k + 1).drop_last() == cs.take(k),
        name_seen_before(cs.take(k + 1), k) == name_seen_before(cs, k),
        cs.take(k + 1)[k] == cs[k],
{
    assert(cs.take(k + 1).drop_last() =~= cs.take(k));
    if name_seen_before(cs, k) {
        let i = choose|i: int| 0 <= i < k && cs[i].name == cs[k].name;
        assert(cs.take(k + 1)[i] == cs[i]);
    }
}

proof fn lemma_validate_error_prefix(cs: Seq<ComponentView>, k: int)
    requires
        0 <= k <= cs.len(),
        spec_validate(cs.take(k)) is Err,
    ensures
        spec_validate(cs) == spec_validate(cs.take(k)),
    decreases cs.len(),
{
    if k == cs.len() {
        assert(cs.take(k) =~= cs);
    } else {
        assert(cs.drop_last().take(k) =~= cs.take(k));
        lemma_validate_error_prefix(cs.drop_last(), k);
    }
}

proof fn lemma_invalid_in_take(gs: Seq<Seq<char>>, j: int)
    requires
        0 <= j < gs.len(),
    ensures
        first_invalid_in(gs.take(j + 1)) == (match first_invalid_in(gs.take(j)) {
            Some(x) => Some(x),
            None => if glob_new_error(gs[j]) is Some {
                Some(j)
            } else {
                None
            },
        }),
{
    assert(gs.take(j + 1).drop_last() =~= gs.take(j));
}

proof fn lemma_invalid_in_extend(gs: Seq<Seq<char>>, j: int)
    requires
        0 <= j <= gs.len(),
        first_invalid_in(gs.take(j)) is Some,
    ensures
        first_invalid_in(gs) == first_invalid_in(gs.take(j)),
    decreases gs.len(),
{
    if j == gs.len() {
        assert(gs.take(j) =~= gs);
    } else {
        assert(gs.drop_last().take(j) =~= gs.take(j));
        lemma_invalid_in_extend(gs.drop_last(), j);
    }
}

/// Validate that all glob patterns compile and component names are unique.
pub fn validate_components(components: &Vec<Component>) -> (r: Result<(), ConfigError>)
    ensures
        validate_result_view(r) == spec_validate(components_view(components@)),
{
    let ghost cs = components_view(components@);
    let n = components.len();
    let mut k: usize = 0;
    while k < n
        invariant
            n == components@.len(),
            cs == components_view(components@),
            k <= n,
            spec_validate(cs.take(k as int)) is Ok,
        decreases n - k,
    {
        proof {
            lemma_validate_step(cs, k as int);
        }
        let c = &components[k];
        assert(c@ == cs[k as int]);
        let mut i: usize = 0;
        while i < k
            invariant
                n == components@.len(),
                cs == components_view(components@),
                k < n,
                c@ == cs[k as int],
                i <= k,
                spec_validate(cs.take(k as int)) is Ok,
                forall|t: int| 0 <= t < i ==> cs[t].name != cs[k as int].name,
            decreases k - i,
        {
            assert(components[i as int]@ == cs[i as int]);
            if components[i].name.eq(&c.name) {
                proof {
                    assert(name_seen_before(cs, k as int));
                    lemma_validate_step(cs, k as int);
                    assert(spec_validate(cs.take(k + 1)) == Err::<(), ConfigErrorView>(
                        ConfigErrorView::Invalid(duplicate_message(cs[k as int].name)),
                    ));
                    lemma_validate_error_prefix(cs, k + 1);
                }
                let reason = "duplicate component name: ".to_string().concat(
                    debug_quote(c.name.as_str()).as_str(),
                );
                return Err(ConfigError::Invalid { reason });
            }
            i = i + 1;
        }
        assert(!name_seen_before(cs, k as int));
        let m = c.globs.len();
        let mut j: usize = 0;
        while j < m
            invariant
                n == components@.len(),
                cs == components_view(components@),
                k < n,
                c@ == cs[k as int],
                m == cs[k as int].globs.len(),
                strings_view(c.globs@) == cs[k as int].globs,
                spec_validate(cs.take(k as int)) is Ok,
                !name_seen_before(cs, k as int),
                j <= m,
                first_invalid_in(cs[k as int].globs.take(j as int)) is None,
            decreases m - j,
        {
            let pattern = &c.globs[j];
            assert(pattern@ == cs[k as int].globs[j as int]);
            proof {
                lemma_invalid_in_take(cs[k as int].globs, j as int);
            }
            match glob_new(pattern.as_str()) {
                Ok(_) => {},
                Err(reason) => {
                    proof {
                        lemma_invalid_in_extend(cs[k as int].globs, j + 1);
                        lemma_validate_step(cs, k as int);
                        assert(spec_validate(cs.take(k + 1)) == Err::<(), ConfigErrorView>(
                            ConfigErrorView::InvalidGlob(
                                cs[k as int].name,
                                cs[k as int].globs[j as int],
                                glob_new_error(cs[k as int].globs[j as int])->0,
                            ),
                        ));
                        lemma_validate_error_prefix(cs, k + 1);
                    }
                    return Err(
                        ConfigError::InvalidGlob {
                            component: c.name.clone(),
                            pattern: pattern.clone(),
                            reason,
                        },
                    );
                },
            }
            j = j + 1;
        }
        assert(cs[k as int].globs.take(m as int) =~= cs[k as int].globs);
        proof {
            lemma_validate_step(cs, k as int);
        }
        k = k + 1;
    }
    assert(cs.take(n as int) =~= cs);
    Ok(())
}

/// The outcome of loading a configuration whose text has been read and parsed: a parse
/// failure (its message) is an invalid configuration; a parsed one is returned only if
/// its components validate.
pub open spec fn spec_finish_load(parsed: Result<ConfigView, Seq<char>>) -> Result<ConfigView, ConfigErrorView> {
    match parsed {
        Err(why) => Err(ConfigErrorView::Invalid(why)),
        Ok(c) => match spec_validate(c.components) {
            Err(e) => Err(e),
            Ok(_) => Ok(c),
        },
    }
}

/// The value of a loading result.
pub open spec fn load_result_view(r: Result<Config, ConfigError>) -> Result<ConfigView, ConfigErrorView> {
    match r {
        Ok(c) => Ok(c@),
        Err(e) => Err(e@),
    }
}

/// Finish loading a configuration from the result of parsing its text.
pub fn finish_load(parsed: Result<Config, String>) -> (r: Result<Config, ConfigError>)
    ensures
        load_result_view(r) == spec_finish_load(
            match parsed {
                Ok(c) => Ok(c@),
                Err(e) => Err(e@),
            },
        ),
{
    match parsed {
        Err(reason) => Err(ConfigError::Invalid { reason }),
        Ok(config) => match validate_components(&config.components) {
            Err(e) => Err(e),
            Ok(()) => Ok(config),
        },
    }
}

} // verus!
