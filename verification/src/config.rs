//! Command-line scanning for the tee utility's configuration argument.

use vstd::prelude::*;
use vstd::slice::slice_index_get;
use crate::text::eq_str;

verus! {

/// The value following the first "--config" flag that has one.
pub open spec fn config_from(args: Seq<Seq<char>>, j: int) -> Option<Seq<char>>
    decreases args.len() - j + 1,
{
    if j < 0 || j >= args.len() {
        None
    } else if args[j] == "--config"@ && j + 1 < args.len() {
        Some(args[j + 1])
    } else {
        config_from(args, j + 1)
    }
}

pub open spec fn config_arg_of(args: Seq<Seq<char>>) -> Option<Seq<char>> {
    config_from(args, 0)
}

/// Scans the argument list for "--config" and returns the value that
/// follows it, if any.
pub fn parse_config_arg(args: &[String]) -> (r: Option<String>)
    ensures
        match r {
            Some(s) => config_arg_of(args.deep_view()) == Some(s@),
            None => config_arg_of(args.deep_view()) is None,
        },
{
    let n = args.len();
    let ghost av = args.deep_view();
    let mut i: usize = 0;
    while i < n
        invariant
            n == args@.len(),
            av == args.deep_view(),
            av.len() == n,
            i <= n,
            config_arg_of(av) == config_from(av, i as int),
        decreases n - i,
    {
        let a = slice_index_get(args, i);
        if eq_str(a.as_str(), "--config") && i + 1 < n {
            let v = slice_index_get(args, i + 1);
            return Some(v.clone());
        }
        i += 1;
    }
    None
}

} // verus!
