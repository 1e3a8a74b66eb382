//! Settings and script arguments: the data directory, the merge of saved form
//! values into a form description, and the variables that carry a script's
//! arguments.

use crate::payload::{append_decimal, decimal};
use std::hash::{Hash, Hasher};
use vstd::prelude::*;
use vstd::string::*;

verus! {

/// `s` with every double quote taken out.
pub open spec fn without_quotes(s: Seq<char>) -> Seq<char> {
    s.filter(|c: char| c != '"')
}

/// The data directory: the custom one where set, else the default, with
/// every double quote taken out.
pub fn resolve_app_data_dir(custom: Option<String>, default_dir: String) -> (r: String)
    ensures
        custom matches Some(c) ==> r@ == without_quotes(c@),
        custom is None ==> r@ == without_quotes(default_dir@),
{
    let chosen = match custom {
        Some(c) => c,
        None => default_dir,
    };
    let s = chosen.as_str();
    let n = s.unicode_len();
    let mut out = String::new();
    let mut i: usize = 0;
    while i < n
        invariant
            n == s@.len(),
            i <= n,
            out@ == without_quotes(s@.take(i as int)),
        decreases n - i,
    {
        let c = s.get_char(i);
        proof {
            let t = s@.take(i + 1);
            assert(t.drop_last() =~= s@.take(i as int));
            assert(t.last() == c);
            reveal(Seq::filter);
        }
        if c != '"' {
            out.append(s.substring_char(i, i + 1));
        }
        i = i + 1;
    }
    proof {
        assert(s@.take(n as int) =~= s@);
    }
    out
}

/// Whether `entry` is the saved value for a setting with `key`: the index of
/// the entry with that name, or none where there is no key or no such entry.
pub open spec fn fills(key: Option<String>, names: Seq<String>, entry: Option<usize>) -> bool {
    match entry {
        Some(j) => j < names.len() && match key {
            Some(k) => names[j as int]@ == k@,
            None => false,
        },
        None => match key {
            Some(k) => forall|j: int| 0 <= j < names.len() ==> names[j]@ != k@,
            None => true,
        },
    }
}

/// For each setting of a form, the saved value that fills it: the index of
/// the saved entry named by the setting's key, or none where the setting has
/// no key or no entry has that name. Saved names are unique.
pub fn merge_plan(setting_keys: &Vec<Option<String>>, saved_names: &Vec<String>) -> (r: Vec<
    Option<usize>,
>)
    ensures
        r@.len() == setting_keys@.len(),
        forall|i: int|
            0 <= i < r@.len() ==> fills(setting_keys@[i], saved_names@, #[trigger] r@[i]),
{
    let mut plan: Vec<Option<usize>> = Vec::new();
    let mut i: usize = 0;
    while i < setting_keys.len()
        invariant
            i <= setting_keys@.len(),
            plan@.len() == i,
            forall|x: int|
                0 <= x < i ==> fills(setting_keys@[x], saved_names@, #[trigger] plan@[x]),
        decreases setting_keys@.len() - i,
    {
        let mut found: Option<usize> = None;
        match &setting_keys[i] {
            Some(key) => {
                let mut j: usize = 0;
                while j < saved_names.len()
                    invariant
                        j <= saved_names@.len(),
                        setting_keys@[i as int] == Some(*key),
                        found matches Some(f) ==> 0 <= f < saved_names@.len()
                            && saved_names@[f as int]@ == key@,
                        found is None ==> forall|y: int|
                            0 <= y < j ==> saved_names@[y]@ != key@,
                    decreases saved_names@.len() - j,
                {
                    if found.is_none() && saved_names[j] == *key {
                        found = Some(j);
                    }
                    j = j + 1;
                }
            },
            None => {},
        }
        plan.push(found);
        i = i + 1;
    }
    plan
}

/// Relies on std's DefaultHasher over Path's Hash impl. The docs leave the
/// algorithm unspecified across releases, so nothing is stated of the value.
#[verifier::external_body]
fn path_digest(path: &str) -> u64 {
    let mut hasher = std::collections::hash_map::DefaultHasher::new();
    std::path::Path::new(path).hash(&mut hasher);
    hasher.finish()
}

/// The key under which the saved values of the form at `path` are stored.
pub fn hash_path(path: &str) -> u64 {
    path_digest(path)
}

/// The name of the variable that holds argument `i`.
pub open spec fn arg_name(i: nat) -> Seq<char> {
    "arg"@ + decimal(i)
}

/// The variables that carry a script's arguments: `arg0`, `arg1`, ... bound to
/// the arguments in order.
pub fn arg_bindings(args: &Vec<String>) -> (r: Vec<(String, String)>)
    ensures
        r@.len() == args@.len(),
        forall|i: int|
            0 <= i < r@.len() ==> (#[trigger] r@[i]).0@ == arg_name(i as nat) && r@[i].1@
                == args@[i]@,
{
    let mut out: Vec<(String, String)> = Vec::new();
    let mut i: usize = 0;
    while i < args.len()
        invariant
            i <= args@.len(),
            out@.len() == i,
            forall|x: int|
                0 <= x < i ==> (#[trigger] out@[x]).0@ == arg_name(x as nat) && out@[x].1@
                    == args@[x]@,
        decreases args@.len() - i,
    {
        let mut name = String::from_str("arg");
        append_decimal(&mut name, i as u64);
        out.push((name, args[i].clone()));
        i = i + 1;
    }
    out
}

} // verus!
