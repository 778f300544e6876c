use vstd::prelude::*;

use crate::env_map::EnvMap;
use crate::parameter::{EnvArgs, Parameter};

verus! {

/// What `str::to_uppercase` makes of a sequence of characters.
pub uninterp spec fn upper_of(s: Seq<char>) -> Seq<char>;

/// Relies on `str::to_uppercase`: Unicode upper-casing, which depends on the
/// characters alone (no locale), and leaves an empty string empty.
#[verifier::external_body]
fn to_upper(s: &str) -> (r: String)
    ensures
        r@ == upper_of(s@),
        s@.len() == 0 ==> r@.len() == 0,
{
    s.to_uppercase()
}

/// `s` begins with `p`.
pub open spec fn starts_with(s: Seq<char>, p: Seq<char>) -> bool {
    p.len() <= s.len() && s.subrange(0, p.len() as int) == p
}

/// The variable name of a parameter called `name`: what follows the path,
/// upper-cased if asked, behind the extra prefix if one is given.
pub open spec fn variable_name_of(args: EnvArgs, name: Seq<char>) -> Seq<char> {
    let suffix = name.subrange(args.path@.len() as int, name.len() as int);
    let cased = if args.uppercase {
        upper_of(suffix)
    } else {
        suffix
    };
    match args.add_prefix {
        Some(p) => p@ + cased,
        None => cased,
    }
}

/// The mapping built from `params` in order, a later name overwriting an
/// earlier one.
pub open spec fn env_map_of(args: EnvArgs, params: Seq<Parameter>) -> Map<Seq<char>, Seq<char>>
    decreases params.len(),
{
    if params.len() == 0 {
        Map::empty()
    } else {
        env_map_of(args, params.drop_last()).insert(
            variable_name_of(args, params.last().name@),
            params.last().value@,
        )
    }
}

/// Every parameter's name begins with the path.
pub open spec fn all_under_path(args: EnvArgs, params: Seq<Parameter>) -> bool {
    forall|i: int| 0 <= i < params.len() ==> starts_with(#[trigger] params[i].name@, args.path@)
}

/// The names in the mapping are exactly the variable names of the
/// parameters; a name holds the value of the last parameter that gives it.
pub proof fn lemma_env_map_entries(args: EnvArgs, params: Seq<Parameter>, i: int)
    requires
        0 <= i < params.len(),
        forall|j: int| i < j < params.len() ==> variable_name_of(args, #[trigger] params[j].name@)
            != variable_name_of(args, params[i].name@),
    ensures
        env_map_of(args, params).contains_key(variable_name_of(args, params[i].name@)),
        env_map_of(args, params)[variable_name_of(args, params[i].name@)] == params[i].value@,
    decreases params.len(),
{
    if i < params.len() - 1 {
        let rest = params.drop_last();
        assert forall|j: int| i < j < rest.len() implies variable_name_of(args, #[trigger] rest[j].name@)
            != variable_name_of(args, rest[i].name@) by {
            assert(rest[j] == params[j]);
        }
        lemma_env_map_entries(args, rest, i);
        assert(rest[i] == params[i]);
        assert(variable_name_of(args, params.last().name@) != variable_name_of(args, params[i].name@));
    }
}

/// Every name in the mapping is the variable name of some parameter.
pub proof fn lemma_env_map_names(args: EnvArgs, params: Seq<Parameter>, k: Seq<char>)
    requires
        env_map_of(args, params).contains_key(k),
    ensures
        exists|i: int| 0 <= i < params.len() && variable_name_of(args, #[trigger] params[i].name@) == k,
    decreases params.len(),
{
    let rest = params.drop_last();
    if k == variable_name_of(args, params.last().name@) {
        assert(variable_name_of(args, params[params.len() - 1].name@) == k);
    } else {
        lemma_env_map_names(args, rest, k);
        let i = choose|i: int| 0 <= i < rest.len() && variable_name_of(args, #[trigger] rest[i].name@) == k;
        assert(rest[i] == params[i]);
    }
}

/// A parameter named `path + suffix` gives the variable `suffix`, upper-cased
/// if asked and behind the extra prefix if one is given, holding the
/// parameter's value (unless a later parameter gives the same name).
pub proof fn lemma_prefix_stripping(args: EnvArgs, params: Seq<Parameter>, i: int, suffix: Seq<char>)
    requires
        0 <= i < params.len(),
        params[i].name@ == args.path@ + suffix,
        forall|j: int| i < j < params.len() ==> variable_name_of(args, #[trigger] params[j].name@)
            != variable_name_of(args, params[i].name@),
    ensures
        ({
            let cased = if args.uppercase { upper_of(suffix) } else { suffix };
            let key = match args.add_prefix {
                Some(p) => p@ + cased,
                None => cased,
            };
            &&& variable_name_of(args, params[i].name@) == key
            &&& env_map_of(args, params).contains_key(key)
            &&& env_map_of(args, params)[key] == params[i].value@
        }),
{
    let name = params[i].name@;
    assert(name.subrange(args.path@.len() as int, name.len() as int) =~= suffix);
    lemma_env_map_entries(args, params, i);
}

/// The mapping depends on the arguments and the parameters alone: the same
/// inputs give the same mapping.
pub proof fn lemma_mapping_idempotent(
    args1: EnvArgs,
    params1: Seq<Parameter>,
    args2: EnvArgs,
    params2: Seq<Parameter>,
)
    requires
        args1.path@ == args2.path@,
        args1.uppercase == args2.uppercase,
        args1.add_prefix == args2.add_prefix,
        params1 == params2,
    ensures
        env_map_of(args1, params1) == env_map_of(args2, params2),
    decreases params1.len(),
{
    if params1.len() > 0 {
        lemma_mapping_idempotent(args1, params1.drop_last(), args2, params2.drop_last());
    }
}

/// Of two parameters that give the same variable name, the later one's value
/// is the one the mapping holds (when no parameter after both gives it too).
pub proof fn lemma_last_write_wins(args: EnvArgs, params: Seq<Parameter>, i: int, j: int)
    requires
        0 <= i < j < params.len(),
        variable_name_of(args, params[i].name@) == variable_name_of(args, params[j].name@),
        forall|k: int| j < k < params.len() ==> variable_name_of(args, #[trigger] params[k].name@)
            != variable_name_of(args, params[j].name@),
    ensures
        env_map_of(args, params)[variable_name_of(args, params[i].name@)] == params[j].value@,
{
    lemma_env_map_entries(args, params, j);
}

/// Why no mapping was built.
#[derive(Clone, Debug)]
pub enum EnvError {
    /// A parameter whose name does not begin with the queried path: the
    /// fetched list does not belong to that path.
    PrefixMismatch { name: String },
}

impl EnvError {
    /// A line for the user.
    pub fn message(&self) -> (r: String)
        ensures
            self matches EnvError::PrefixMismatch { name } ==> r@
                == "Parameter name does not begin with the requested path: "@ + name@,
    {
        match self {
            EnvError::PrefixMismatch { name } => {
                let mut r = String::from_str("Parameter name does not begin with the requested path: ");
                r.append(name.as_str());
                r
            },
        }
    }
}

fn has_prefix(s: &str, p: &str) -> (r: bool)
    ensures
        r == starts_with(s@, p@),
{
    let n = s.unicode_len();
    let m = p.unicode_len();
    if m > n {
        return false;
    }
    let mut i: usize = 0;
    while i < m
        invariant
            n == s@.len(),
            m == p@.len(),
            m <= n,
            i <= m,
            forall|j: int| 0 <= j < i ==> s@[j] == p@[j],
        decreases m - i,
    {
        if s.get_char(i) != p.get_char(i) {
            return false;
        }
        i = i + 1;
    }
    assert(s@.subrange(0, m as int) =~= p@);
    true
}

/// The environment variable name for a parameter called `name`.
pub fn variable_name(args: &EnvArgs, name: &str) -> (r: String)
    requires
        starts_with(name@, args.path@),
    ensures
        r@ == variable_name_of(*args, name@),
{
    let suffix = name.substring_char(args.path.as_str().unicode_len(), name.unicode_len());
    let cased = if args.uppercase {
        to_upper(suffix)
    } else {
        String::from_str(suffix)
    };
    match &args.add_prefix {
        Some(p) => {
            let mut r = p.clone();
            r.append(cased.as_str());
            r
        },
        None => cased,
    }
}

/// Builds the environment mapping from the fetched parameters, in order.
///
/// Fails, and builds nothing, when a parameter's name does not begin with
/// the path; the error names the first such parameter.
pub fn build_env_map(args: &EnvArgs, parameters: &[Parameter]) -> (r: Result<EnvMap, EnvError>)
    ensures
        r is Ok <==> all_under_path(*args, parameters@),
        r matches Ok(m) ==> m.wf() && m@ == env_map_of(*args, parameters@),
        r matches Err(EnvError::PrefixMismatch { name }) ==> exists|i: int|
            0 <= i < parameters@.len()
            && !starts_with(#[trigger] parameters@[i].name@, args.path@)
            && name@ == parameters@[i].name@
            && all_under_path(*args, parameters@.take(i)),
{
    let mut env = EnvMap::new();
    let mut i: usize = 0;
    while i < parameters.len()
        invariant
            i <= parameters@.len(),
            env.wf(),
            all_under_path(*args, parameters@.take(i as int)),
            env@ == env_map_of(*args, parameters@.take(i as int)),
        decreases parameters@.len() - i,
    {
        let param = &parameters[i];
        if !has_prefix(param.name.as_str(), args.path.as_str()) {
            proof {
                assert(!all_under_path(*args, parameters@));
            }
            return Err(EnvError::PrefixMismatch { name: param.name.clone() });
        }
        let key = variable_name(args, param.name.as_str());
        env.insert(key, param.value.clone());
        proof {
            let t = parameters@.take(i + 1);
            assert(t.drop_last() =~= parameters@.take(i as int));
            assert(t.last() == parameters@[i as int]);
            assert forall|j: int| 0 <= j < t.len() implies starts_with(#[trigger] t[j].name@, args.path@) by {
                if j < i {
                    assert(t[j] == parameters@.take(i as int)[j]);
                }
            }
        }
        i = i + 1;
    }
    assert(parameters@.take(i as int) =~= parameters@);
    Ok(env)
}

} // verus!
